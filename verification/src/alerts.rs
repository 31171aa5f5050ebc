//! Rule-based alerting over fresh events: per-rule configuration with
//! cooldowns, and the trigger conditions themselves.
//!
//! The caller hands in the current time; the engine holds no clock.

use vstd::prelude::*;

use crate::analysis::models;
use crate::model::CombatEvent;
use crate::model::Direction;
use crate::model::EventKind;
use crate::model::EventModel;
use crate::model::NotifyEvent;
use crate::numbers::dec_str;
use crate::numbers::digit_char;
use crate::numbers::u64_to_chars;
use crate::text::append_chars;
use crate::text::chars_to_string;
use crate::text::contains_sub;
use crate::text::has_sub;
use crate::text::lower_chars;
use crate::text::lower_seq;
use crate::text::seq_eq;
use crate::text::str_chars;

verus! {

/// The fixed alert rules.
#[derive(Clone, Copy, Debug, PartialEq, Eq, Structural)]
pub enum AlertRuleId {
    /// Incoming damage from the environmental hazard.
    EnvironmentalDamage,
    /// A tracked character damaging another tracked character.
    FriendlyFire,
    /// A designated logistics character receiving damage.
    LogiTakingDamage,
    /// A designated drain-sensitive character being drained.
    NeutSensitiveNeuted,
    /// A module failing to activate for lack of capacitor.
    CapacitorFailure,
    /// A designated logistics character being drained.
    LogiNeuted,
}

/// Display name of a rule.
pub open spec fn display_name_of(r: AlertRuleId) -> Seq<char> {
    match r {
        AlertRuleId::EnvironmentalDamage => "Environmental Damage"@,
        AlertRuleId::FriendlyFire => "Friendly Fire"@,
        AlertRuleId::LogiTakingDamage => "Logi Taking Damage"@,
        AlertRuleId::NeutSensitiveNeuted => "Neut Pressure"@,
        AlertRuleId::CapacitorFailure => "Capacitor Failure"@,
        AlertRuleId::LogiNeuted => "Logi Neuted"@,
    }
}

/// Description of a rule.
pub open spec fn description_of(r: AlertRuleId) -> Seq<char> {
    match r {
        AlertRuleId::EnvironmentalDamage => "Alert when taking damage from Unstable Abyssal Depths"@,
        AlertRuleId::FriendlyFire => "Alert when a tracked character damages another tracked character (excludes Vorton weapons)"@,
        AlertRuleId::LogiTakingDamage => "Alert when your designated logi character takes incoming damage"@,
        AlertRuleId::NeutSensitiveNeuted => "Alert when a designated neut-sensitive character is neuted"@,
        AlertRuleId::CapacitorFailure => "Alert when a module fails to activate due to insufficient capacitor"@,
        AlertRuleId::LogiNeuted => "Alert when a designated logi character is neuted"@,
    }
}

impl AlertRuleId {
    /// The display name, per [`display_name_of`].
    pub fn display_name(&self) -> (r: &'static str)
        ensures
            r@ == display_name_of(*self),
    {
        match self {
            AlertRuleId::EnvironmentalDamage => "Environmental Damage",
            AlertRuleId::FriendlyFire => "Friendly Fire",
            AlertRuleId::LogiTakingDamage => "Logi Taking Damage",
            AlertRuleId::NeutSensitiveNeuted => "Neut Pressure",
            AlertRuleId::CapacitorFailure => "Capacitor Failure",
            AlertRuleId::LogiNeuted => "Logi Neuted",
        }
    }

    /// The description, per [`description_of`].
    pub fn description(&self) -> (r: &'static str)
        ensures
            r@ == description_of(*self),
    {
        match self {
            AlertRuleId::EnvironmentalDamage => "Alert when taking damage from Unstable Abyssal Depths",
            AlertRuleId::FriendlyFire => "Alert when a tracked character damages another tracked character (excludes Vorton weapons)",
            AlertRuleId::LogiTakingDamage => "Alert when your designated logi character takes incoming damage",
            AlertRuleId::NeutSensitiveNeuted => "Alert when a designated neut-sensitive character is neuted",
            AlertRuleId::CapacitorFailure => "Alert when a module fails to activate due to insufficient capacitor",
            AlertRuleId::LogiNeuted => "Alert when a designated logi character is neuted",
        }
    }

    /// The fixed rules, in evaluation order.
    pub fn all() -> (r: Vec<AlertRuleId>)
        ensures
            r@ == all_rules(),
    {
        let mut v: Vec<AlertRuleId> = Vec::new();
        v.push(AlertRuleId::EnvironmentalDamage);
        v.push(AlertRuleId::FriendlyFire);
        v.push(AlertRuleId::LogiTakingDamage);
        v.push(AlertRuleId::NeutSensitiveNeuted);
        v.push(AlertRuleId::CapacitorFailure);
        v.push(AlertRuleId::LogiNeuted);
        proof {
            assert(v@ =~= all_rules());
        }
        v
    }
}

/// The six rules in evaluation order.
pub open spec fn all_rules() -> Seq<AlertRuleId> {
    seq![
        AlertRuleId::EnvironmentalDamage,
        AlertRuleId::FriendlyFire,
        AlertRuleId::LogiTakingDamage,
        AlertRuleId::NeutSensitiveNeuted,
        AlertRuleId::CapacitorFailure,
        AlertRuleId::LogiNeuted,
    ]
}

/// Sound choice for an alert.
#[derive(Clone, Copy, Debug, PartialEq, Eq, Structural)]
pub enum AlertSound {
    Default,
    Warning,
    Critical,
    /// No sound at all.
    Silent,
}

/// The sound file for a rule, by sound choice: silent rules have none.
pub open spec fn sound_file_of(s: AlertSound, r: AlertRuleId) -> Option<Seq<char>> {
    match s {
        AlertSound::Silent => None,
        _ => Some(
            match r {
                AlertRuleId::EnvironmentalDamage => "boundary"@,
                AlertRuleId::FriendlyFire => "friendly_fire"@,
                AlertRuleId::LogiTakingDamage => "logi_attacked"@,
                AlertRuleId::NeutSensitiveNeuted => "neut"@,
                AlertRuleId::CapacitorFailure => "capacitor_empty"@,
                AlertRuleId::LogiNeuted => "logi_neuted"@,
            },
        ),
    }
}

impl AlertSound {
    /// The sound file name, per [`sound_file_of`].
    pub fn filename(&self, rule_id: AlertRuleId) -> (r: Option<&'static str>)
        ensures
            match (r, sound_file_of(*self, rule_id)) {
                (Some(f), Some(m)) => f@ == m,
                (None, None) => true,
                _ => false,
            },
    {
        match self {
            AlertSound::Silent => None,
            _ => Some(
                match rule_id {
                    AlertRuleId::EnvironmentalDamage => "boundary",
                    AlertRuleId::FriendlyFire => "friendly_fire",
                    AlertRuleId::LogiTakingDamage => "logi_attacked",
                    AlertRuleId::NeutSensitiveNeuted => "neut",
                    AlertRuleId::CapacitorFailure => "capacitor_empty",
                    AlertRuleId::LogiNeuted => "logi_neuted",
                },
            ),
        }
    }
}

/// Per-rule configuration.
#[derive(Clone, Copy, Debug, PartialEq, Eq, Structural)]
pub struct AlertRuleConfig {
    pub enabled: bool,
    pub sound: AlertSound,
    /// Per-rule cooldown, in seconds.
    pub cooldown_seconds: u32,
    /// For friendly fire: ignore chain-lightning weapons that arc onto
    /// teammates by design.
    pub ignore_vorton: bool,
}

/// The default per-rule configuration.
pub open spec fn default_rule_config() -> AlertRuleConfig {
    AlertRuleConfig {
        enabled: true,
        sound: AlertSound::Default,
        cooldown_seconds: 3,
        ignore_vorton: true,
    }
}

impl Default for AlertRuleConfig {
    /// Enabled, default sound, three-second cooldown, arcs ignored.
    fn default() -> (r: Self)
        ensures
            r == default_rule_config(),
    {
        AlertRuleConfig {
            enabled: true,
            sound: AlertSound::Default,
            cooldown_seconds: 3,
            ignore_vorton: true,
        }
    }
}

/// Character role designations for the alert logic.
#[derive(Clone, Debug)]
pub struct CharacterRoles {
    /// Characters that should never take damage.
    pub logi_characters: Vec<String>,
    /// Characters particularly hurt by energy drains.
    pub neut_sensitive_characters: Vec<String>,
}

impl Default for CharacterRoles {
    /// No designated characters.
    fn default() -> (r: Self)
        ensures
            r.logi_characters@.len() == 0,
            r.neut_sensitive_characters@.len() == 0,
    {
        CharacterRoles { logi_characters: Vec::new(), neut_sensitive_characters: Vec::new() }
    }
}

/// The configuration a rule has, if any: the first entry naming it.
pub open spec fn rule_cfg(
    rules: Seq<(AlertRuleId, AlertRuleConfig)>,
    id: AlertRuleId,
) -> Option<AlertRuleConfig>
    decreases rules.len(),
{
    if rules.len() == 0 {
        None
    } else if rules[0].0 == id {
        Some(rules[0].1)
    } else {
        rule_cfg(rules.drop_first(), id)
    }
}

/// Engine configuration: per-rule settings and role designations.
#[derive(Clone, Debug)]
pub struct AlertEngineConfig {
    pub rules: Vec<(AlertRuleId, AlertRuleConfig)>,
    pub roles: CharacterRoles,
}

impl AlertEngineConfig {
    /// Every rule enabled at its default settings, no roles designated.
    pub fn default_enabled() -> (r: Self)
        ensures
            forall|id: AlertRuleId| rule_cfg(r.rules@, id) == Some(default_rule_config()),
            r.roles.logi_characters@.len() == 0,
            r.roles.neut_sensitive_characters@.len() == 0,
    {
        let mut rules: Vec<(AlertRuleId, AlertRuleConfig)> = Vec::new();
        rules.push((AlertRuleId::EnvironmentalDamage, AlertRuleConfig::default()));
        rules.push((AlertRuleId::FriendlyFire, AlertRuleConfig::default()));
        rules.push((AlertRuleId::LogiTakingDamage, AlertRuleConfig::default()));
        rules.push((AlertRuleId::NeutSensitiveNeuted, AlertRuleConfig::default()));
        rules.push((AlertRuleId::CapacitorFailure, AlertRuleConfig::default()));
        rules.push((AlertRuleId::LogiNeuted, AlertRuleConfig::default()));
        let r = AlertEngineConfig { rules, roles: CharacterRoles::default() };
        proof {
            let s0 = r.rules@;
            let s1 = s0.drop_first();
            let s2 = s1.drop_first();
            let s3 = s2.drop_first();
            let s4 = s3.drop_first();
            let s5 = s4.drop_first();
            assert(s1[0] == s0[1] && s2[0] == s0[2] && s3[0] == s0[3] && s4[0] == s0[4] && s5[0]
                == s0[5]);
            assert forall|id: AlertRuleId| rule_cfg(r.rules@, id) == Some(
                default_rule_config(),
            ) by {
                match id {
                    AlertRuleId::EnvironmentalDamage => {
                        assert(s0[0].0 == id);
                    },
                    AlertRuleId::FriendlyFire => {
                        assert(rule_cfg(s0, id) == rule_cfg(s1, id));
                        assert(s1[0].0 == id);
                    },
                    AlertRuleId::LogiTakingDamage => {
                        assert(rule_cfg(s0, id) == rule_cfg(s1, id) && rule_cfg(s1, id)
                            == rule_cfg(s2, id));
                        assert(s2[0].0 == id);
                    },
                    AlertRuleId::NeutSensitiveNeuted => {
                        assert(rule_cfg(s0, id) == rule_cfg(s1, id) && rule_cfg(s1, id)
                            == rule_cfg(s2, id) && rule_cfg(s2, id) == rule_cfg(s3, id));
                        assert(s3[0].0 == id);
                    },
                    AlertRuleId::CapacitorFailure => {
                        assert(rule_cfg(s0, id) == rule_cfg(s1, id) && rule_cfg(s1, id)
                            == rule_cfg(s2, id) && rule_cfg(s2, id) == rule_cfg(s3, id)
                            && rule_cfg(s3, id) == rule_cfg(s4, id));
                        assert(s4[0].0 == id);
                    },
                    AlertRuleId::LogiNeuted => {
                        assert(rule_cfg(s0, id) == rule_cfg(s1, id) && rule_cfg(s1, id)
                            == rule_cfg(s2, id) && rule_cfg(s2, id) == rule_cfg(s3, id)
                            && rule_cfg(s3, id) == rule_cfg(s4, id) && rule_cfg(s4, id)
                            == rule_cfg(s5, id));
                        assert(s5[0].0 == id);
                    },
                }
            }
        }
        r
    }

    /// Whether a rule is enabled; unconfigured rules are off.
    pub fn is_enabled(&self, rule_id: AlertRuleId) -> (r: bool)
        ensures
            r == match rule_cfg(self.rules@, rule_id) {
                Some(c) => c.enabled,
                None => false,
            },
    {
        match self.find_rule(rule_id) {
            Some(c) => c.enabled,
            None => false,
        }
    }

    /// The sound configured for a rule; the default sound when none is.
    pub fn get_sound(&self, rule_id: AlertRuleId) -> (r: AlertSound)
        ensures
            r == match rule_cfg(self.rules@, rule_id) {
                Some(c) => c.sound,
                None => AlertSound::Default,
            },
    {
        match self.find_rule(rule_id) {
            Some(c) => c.sound,
            None => AlertSound::Default,
        }
    }

    /// The cooldown for a rule, in seconds; three when unconfigured.
    pub fn get_cooldown(&self, rule_id: AlertRuleId) -> (r: u64)
        ensures
            r == match rule_cfg(self.rules@, rule_id) {
                Some(c) => c.cooldown_seconds as int,
                None => 3,
            },
    {
        match self.find_rule(rule_id) {
            Some(c) => c.cooldown_seconds as u64,
            None => 3,
        }
    }

    /// Whether arcs are ignored for a rule; they are when unconfigured.
    pub fn get_ignore_vorton(&self, rule_id: AlertRuleId) -> (r: bool)
        ensures
            r == match rule_cfg(self.rules@, rule_id) {
                Some(c) => c.ignore_vorton,
                None => true,
            },
    {
        match self.find_rule(rule_id) {
            Some(c) => c.ignore_vorton,
            None => true,
        }
    }

    /// The first configuration entry for a rule.
    fn find_rule(&self, rule_id: AlertRuleId) -> (r: Option<AlertRuleConfig>)
        ensures
            r == rule_cfg(self.rules@, rule_id),
    {
        let n = self.rules.len();
        proof {
            assert(self.rules@.skip(0) =~= self.rules@);
        }
        let mut i: usize = 0;
        while i < n
            invariant
                i <= n,
                n == self.rules@.len(),
                rule_cfg(self.rules@, rule_id) == rule_cfg(
                    self.rules@.skip(i as int),
                    rule_id,
                ),
            decreases n - i,
        {
            proof {
                assert(self.rules@.skip(i as int)[0] == self.rules@[i as int]);
                assert(self.rules@.skip(i as int).drop_first() =~= self.rules@.skip(i + 1));
            }
            if self.rules[i].0 == rule_id {
                return Some(self.rules[i].1);
            }
            i += 1;
        }
        proof {
            assert(self.rules@.skip(n as int) =~= Seq::<(AlertRuleId, AlertRuleConfig)>::empty());
        }
        None
    }
}

/// An alert that fired.
#[derive(Clone, Debug)]
pub struct AlertEvent {
    pub rule_id: AlertRuleId,
    /// Timestamp of the first fresh event in the batch, in milliseconds.
    pub timestamp_ms: u64,
    pub message: String,
    pub sound: AlertSound,
}

/// True when one of the names equals `x`.
pub open spec fn contains_name(names: Seq<Seq<char>>, x: Seq<char>) -> bool {
    exists|i: int| 0 <= i < names.len() && names[i] == x
}

/// Executable name-set membership.
fn names_contain(names: &Vec<String>, x: &String) -> (r: bool)
    ensures
        r == contains_name(names@.map_values(|s: String| s@), x@),
{
    let ghost nm = names@.map_values(|s: String| s@);
    let n = names.len();
    let mut i: usize = 0;
    while i < n
        invariant
            i <= n,
            n == names@.len(),
            nm == names@.map_values(|s: String| s@),
            forall|j: int| 0 <= j < i ==> nm[j] != x@,
        decreases n - i,
    {
        proof {
            assert(nm[i as int] == names@[i as int]@);
        }
        if names[i] == *x {
            proof {
                assert(nm[i as int] == x@);
            }
            return true;
        }
        i += 1;
    }
    false
}

/// Milli-units rounded to whole units, to the nearest.
pub open spec fn round_units(m: int) -> int {
    (m + 500) / 1000
}

/// Milli-units written with one decimal place.
pub open spec fn one_decimal(m: int) -> Seq<char> {
    dec_str(m / 1000) + seq!['.'] + seq![digit_char(m % 1000 / 100)]
}

/// Push the decimal text of a rounded amount.
fn push_round_units(out: &mut Vec<char>, m: u64)
    ensures
        final(out)@ == old(out)@ + dec_str(round_units(m as int)),
{
    let units = (m / 1000) + (if m % 1000 >= 500 {
        1
    } else {
        0
    });
    proof {
        assert(units as int == round_units(m as int));
    }
    append_chars(out, &u64_to_chars(units));
}

/// Push an amount with one decimal place.
fn push_one_decimal(out: &mut Vec<char>, m: u64)
    ensures
        final(out)@ == old(out)@ + one_decimal(m as int),
{
    append_chars(out, &u64_to_chars(m / 1000));
    out.push('.');
    out.push((48 + (m % 1000 / 100) as u8) as char);
    proof {
        assert(out@ =~= old(out)@ + one_decimal(m as int));
    }
}

/// Condition of the environmental-damage rule on one event.
pub open spec fn env_pred(e: EventModel) -> bool {
    e.kind == EventKind::Damage && e.direction == Direction::Incoming && has_sub(
        e.source,
        "Unstable Abyssal Depths"@,
    )
}

/// Condition of the friendly-fire rule on one event.
pub open spec fn ff_pred(e: EventModel, tracked_names: Seq<Seq<char>>, ignore_vorton: bool) -> bool {
    &&& e.kind == EventKind::Damage
    &&& e.direction == Direction::Outgoing
    &&& contains_name(tracked_names, e.character)
    &&& contains_name(tracked_names, e.target)
    &&& e.target != e.character
    &&& (ignore_vorton ==> !has_sub(lower_seq(e.action_name), "vorton"@))
}

/// Condition of the logistics-taking-damage rule on one event.
pub open spec fn logi_dmg_pred(e: EventModel, logi: Seq<Seq<char>>) -> bool {
    e.kind == EventKind::Damage && e.direction == Direction::Incoming && contains_name(
        logi,
        e.character,
    )
}

/// Condition of the drain-pressure rules on one event.
pub open spec fn drained_pred(e: EventModel, who: Seq<Seq<char>>) -> bool {
    e.kind == EventKind::EnergyDrain && e.direction == Direction::Incoming && contains_name(
        who,
        e.character,
    )
}

/// The message of each rule, from the first event meeting its condition.
pub open spec fn rule_message(
    rule: AlertRuleId,
    combat: Seq<EventModel>,
    notify: Seq<crate::model::NotifyModel>,
    tracked_names: Seq<Seq<char>>,
    logi: Seq<Seq<char>>,
    neut: Seq<Seq<char>>,
    ignore_vorton: bool,
) -> Option<Seq<char>>
    decreases combat.len(), notify.len(),
{
    match rule {
        AlertRuleId::EnvironmentalDamage => if combat.len() == 0 {
            None
        } else if env_pred(combat[0]) {
            Some(combat[0].character + " taking damage from Unstable Abyssal Depths!"@)
        } else {
            rule_message(rule, combat.drop_first(), notify, tracked_names, logi, neut, ignore_vorton)
        },
        AlertRuleId::FriendlyFire => if combat.len() == 0 {
            None
        } else if ff_pred(combat[0], tracked_names, ignore_vorton) {
            Some(
                "Friendly fire! "@ + combat[0].character + " hit "@ + combat[0].target + " with "@
                    + combat[0].action_name,
            )
        } else {
            rule_message(rule, combat.drop_first(), notify, tracked_names, logi, neut, ignore_vorton)
        },
        AlertRuleId::LogiTakingDamage => if combat.len() == 0 {
            None
        } else if logi_dmg_pred(combat[0], logi) {
            Some(
                "LOGI TAKING DAMAGE! "@ + combat[0].character + " hit by "@ + combat[0].source
                    + " for "@ + dec_str(round_units(combat[0].amount_milli)),
            )
        } else {
            rule_message(rule, combat.drop_first(), notify, tracked_names, logi, neut, ignore_vorton)
        },
        AlertRuleId::NeutSensitiveNeuted => if combat.len() == 0 {
            None
        } else if drained_pred(combat[0], neut) {
            Some(
                "NEUT PRESSURE on "@ + combat[0].character + "! "@ + dec_str(
                    round_units(combat[0].amount_milli),
                ) + " GJ from "@ + combat[0].source,
            )
        } else {
            rule_message(rule, combat.drop_first(), notify, tracked_names, logi, neut, ignore_vorton)
        },
        AlertRuleId::LogiNeuted => if combat.len() == 0 {
            None
        } else if drained_pred(combat[0], logi) {
            Some(
                "LOGI NEUTED! "@ + combat[0].source + " draining "@ + dec_str(
                    round_units(combat[0].amount_milli),
                ) + " GJ from "@ + combat[0].character,
            )
        } else {
            rule_message(rule, combat.drop_first(), notify, tracked_names, logi, neut, ignore_vorton)
        },
        AlertRuleId::CapacitorFailure => if notify.len() == 0 {
            None
        } else {
            Some(
                "CAP FAILURE! "@ + notify[0].character + " can't activate "@
                    + notify[0].module_name + " (need "@ + one_decimal(notify[0].required_milli)
                    + ", have "@ + one_decimal(notify[0].available_milli) + ")"@,
            )
        },
    }
}

/// The images of a batch of notify events.
pub open spec fn notify_models(s: Seq<NotifyEvent>) -> Seq<crate::model::NotifyModel> {
    s.map(|i: int, e: NotifyEvent| e@)
}

/// Evaluate one rule against the fresh events, per [`rule_message`].
pub fn evaluate_trigger(
    rule_id: AlertRuleId,
    combat: &Vec<CombatEvent>,
    notify: &Vec<NotifyEvent>,
    tracked_names: &Vec<String>,
    logi: &Vec<String>,
    neut: &Vec<String>,
    ignore_vorton: bool,
) -> (r: Option<String>)
    ensures
        ({
            let m = rule_message(
                rule_id,
                models(combat@),
                notify_models(notify@),
                tracked_names@.map_values(|s: String| s@),
                logi@.map_values(|s: String| s@),
                neut@.map_values(|s: String| s@),
                ignore_vorton,
            );
            match (r, m) {
                (Some(x), Some(y)) => x@ == y,
                (None, None) => true,
                _ => false,
            }
        }),
{
    let ghost cm = models(combat@);
    let ghost nm = notify_models(notify@);
    let ghost tr = tracked_names@.map_values(|s: String| s@);
    let ghost lg = logi@.map_values(|s: String| s@);
    let ghost nt = neut@.map_values(|s: String| s@);
    if rule_id == AlertRuleId::CapacitorFailure {
        proof {
            if notify@.len() > 0 {
                assert(nm[0] == notify@[0]@);
            }
        }
        if notify.len() == 0 {
            return None;
        }
        let e = &notify[0];
        let mut out: Vec<char> = Vec::new();
        append_chars(&mut out, &str_chars("CAP FAILURE! "));
        append_chars(&mut out, &str_chars(e.character.as_str()));
        append_chars(&mut out, &str_chars(" can't activate "));
        append_chars(&mut out, &str_chars(e.module_name.as_str()));
        append_chars(&mut out, &str_chars(" (need "));
        push_one_decimal(&mut out, e.required_milli);
        append_chars(&mut out, &str_chars(", have "));
        push_one_decimal(&mut out, e.available_milli);
        append_chars(&mut out, &str_chars(")"));
        proof {
            assert(out@ =~= rule_message(rule_id, cm, nm, tr, lg, nt, ignore_vorton).unwrap());
        }
        return Some(chars_to_string(&out));
    }
    let n = combat.len();
    proof {
        assert(cm.len() == n);
        assert(cm.skip(0) =~= cm);
    }
    let mut i: usize = 0;
    while i < n
        invariant
            i <= n,
            n == combat@.len(),
            cm == models(combat@),
            nm == notify_models(notify@),
            tr == tracked_names@.map_values(|s: String| s@),
            lg == logi@.map_values(|s: String| s@),
            nt == neut@.map_values(|s: String| s@),
            rule_id != AlertRuleId::CapacitorFailure,
            rule_message(rule_id, cm, nm, tr, lg, nt, ignore_vorton) == rule_message(
                rule_id,
                cm.skip(i as int),
                nm,
                tr,
                lg,
                nt,
                ignore_vorton,
            ),
        decreases n - i,
    {
        proof {
            assert(cm.skip(i as int)[0] == cm[i as int]);
            assert(cm[i as int] == combat@[i as int]@);
            assert(cm.skip(i as int).drop_first() =~= cm.skip(i + 1));
        }
        let e = &combat[i];
        let fired: bool = if rule_id == AlertRuleId::EnvironmentalDamage {
            e.kind == EventKind::Damage && e.direction == Direction::Incoming && contains_sub(
                &str_chars(e.source.as_str()),
                &str_chars("Unstable Abyssal Depths"),
            )
        } else if rule_id == AlertRuleId::FriendlyFire {
            e.kind == EventKind::Damage && e.direction == Direction::Outgoing && names_contain(
                tracked_names,
                &e.character,
            ) && names_contain(tracked_names, &e.target) && !seq_eq(
                &str_chars(e.target.as_str()),
                &str_chars(e.character.as_str()),
            ) && (!ignore_vorton || !contains_sub(
                &lower_chars(&str_chars(e.action_name.as_str())),
                &str_chars("vorton"),
            ))
        } else if rule_id == AlertRuleId::LogiTakingDamage {
            e.kind == EventKind::Damage && e.direction == Direction::Incoming && names_contain(
                logi,
                &e.character,
            )
        } else if rule_id == AlertRuleId::NeutSensitiveNeuted {
            e.kind == EventKind::EnergyDrain && e.direction == Direction::Incoming
                && names_contain(neut, &e.character)
        } else {
            e.kind == EventKind::EnergyDrain && e.direction == Direction::Incoming
                && names_contain(logi, &e.character)
        };
        if fired {
            let mut out: Vec<char> = Vec::new();
            if rule_id == AlertRuleId::EnvironmentalDamage {
                append_chars(&mut out, &str_chars(e.character.as_str()));
                append_chars(
                    &mut out,
                    &str_chars(" taking damage from Unstable Abyssal Depths!"),
                );
            } else if rule_id == AlertRuleId::FriendlyFire {
                append_chars(&mut out, &str_chars("Friendly fire! "));
                append_chars(&mut out, &str_chars(e.character.as_str()));
                append_chars(&mut out, &str_chars(" hit "));
                append_chars(&mut out, &str_chars(e.target.as_str()));
                append_chars(&mut out, &str_chars(" with "));
                append_chars(&mut out, &str_chars(e.action_name.as_str()));
            } else if rule_id == AlertRuleId::LogiTakingDamage {
                append_chars(&mut out, &str_chars("LOGI TAKING DAMAGE! "));
                append_chars(&mut out, &str_chars(e.character.as_str()));
                append_chars(&mut out, &str_chars(" hit by "));
                append_chars(&mut out, &str_chars(e.source.as_str()));
                append_chars(&mut out, &str_chars(" for "));
                push_round_units(&mut out, e.amount_milli);
            } else if rule_id == AlertRuleId::NeutSensitiveNeuted {
                append_chars(&mut out, &str_chars("NEUT PRESSURE on "));
                append_chars(&mut out, &str_chars(e.character.as_str()));
                append_chars(&mut out, &str_chars("! "));
                push_round_units(&mut out, e.amount_milli);
                append_chars(&mut out, &str_chars(" GJ from "));
                append_chars(&mut out, &str_chars(e.source.as_str()));
            } else {
                append_chars(&mut out, &str_chars("LOGI NEUTED! "));
                append_chars(&mut out, &str_chars(e.source.as_str()));
                append_chars(&mut out, &str_chars(" draining "));
                push_round_units(&mut out, e.amount_milli);
                append_chars(&mut out, &str_chars(" GJ from "));
                append_chars(&mut out, &str_chars(e.character.as_str()));
            }
            proof {
                assert(out@ =~= rule_message(rule_id, cm, nm, tr, lg, nt, ignore_vorton).unwrap());
            }
            return Some(chars_to_string(&out));
        }
        i += 1;
    }
    proof {
        assert(cm.skip(n as int) =~= Seq::<EventModel>::empty());
    }
    None
}

/// The last time each rule fired, by caller-provided clock.
pub open spec fn cd_of(cds: Seq<(AlertRuleId, u64)>, id: AlertRuleId) -> Option<int>
    decreases cds.len(),
{
    if cds.len() == 0 {
        None
    } else if cds[0].0 == id {
        Some(cds[0].1 as int)
    } else {
        cd_of(cds.drop_first(), id)
    }
}

/// A rule is off cooldown when it never fired, or fired at least its
/// cooldown ago.
pub open spec fn off_cooldown(
    cds: Seq<(AlertRuleId, u64)>,
    id: AlertRuleId,
    cooldown_secs: int,
    now_ms: int,
) -> bool {
    match cd_of(cds, id) {
        None => true,
        Some(last) => now_ms - last >= cooldown_secs * 1000,
    }
}

/// The alert engine: configuration plus per-rule cooldown bookkeeping.
pub struct AlertEngine {
    config: AlertEngineConfig,
    cooldowns: Vec<(AlertRuleId, u64)>,
}

impl AlertEngine {
    /// The engine's configuration.
    pub closed spec fn config_spec(self) -> AlertEngineConfig {
        self.config
    }

    /// The engine's cooldown table.
    pub closed spec fn cooldowns_spec(self) -> Seq<(AlertRuleId, u64)> {
        self.cooldowns@
    }

    /// A fresh engine with no cooldowns pending.
    pub fn new(config: AlertEngineConfig) -> (r: Self)
        ensures
            r.config_spec() == config,
            r.cooldowns_spec().len() == 0,
    {
        AlertEngine { config, cooldowns: Vec::new() }
    }

    /// Swap in a new configuration; cooldowns carry over.
    pub fn update_config(&mut self, config: AlertEngineConfig)
        ensures
            final(self).config_spec() == config,
            final(self).cooldowns_spec() == old(self).cooldowns_spec(),
    {
        self.config = config;
    }

    /// Record that a rule fired now.
    fn mark_fired(&mut self, id: AlertRuleId, now_ms: u64)
        ensures
            final(self).config_spec() == old(self).config_spec(),
            cd_of(final(self).cooldowns_spec(), id) == Some(now_ms as int),
            forall|other: AlertRuleId|
                other != id ==> #[trigger] cd_of(final(self).cooldowns_spec(), other) == cd_of(
                    old(self).cooldowns_spec(),
                    other,
                ),
    {
        let ghost cds0 = self.cooldowns@;
        self.cooldowns.insert(0, (id, now_ms));
        proof {
            assert(self.cooldowns@.drop_first() =~= cds0);
        }
    }

    /// Whether a rule fires against the engine state at the time of the
    /// call: enabled, off cooldown, and its condition met by the events.
    pub open spec fn rule_fires(
        cfg: AlertEngineConfig,
        cds: Seq<(AlertRuleId, u64)>,
        cm: Seq<EventModel>,
        nm: Seq<crate::model::NotifyModel>,
        tr: Seq<Seq<char>>,
        now_ms: int,
        id: AlertRuleId,
    ) -> bool {
        let c = rule_cfg(cfg.rules@, id);
        let lg = cfg.roles.logi_characters@.map_values(|s: String| s@);
        let nt = cfg.roles.neut_sensitive_characters@.map_values(|s: String| s@);
        &&& (match c {
            Some(x) => x.enabled,
            None => false,
        })
        &&& off_cooldown(
            cds,
            id,
            match c {
                Some(x) => x.cooldown_seconds as int,
                None => 3,
            },
            now_ms,
        )
        &&& rule_message(
            id,
            cm,
            nm,
            tr,
            lg,
            nt,
            match c {
                Some(x) => x.ignore_vorton,
                None => true,
            },
        ) is Some
    }

    /// Whether an alert value is justified against the engine state at the
    /// time of the call: its rule enabled and off cooldown, its message the
    /// rule's, its sound the configured one, its timestamp the batch's
    /// first.
    pub open spec fn alert_ok(
        cfg: AlertEngineConfig,
        cds: Seq<(AlertRuleId, u64)>,
        cm: Seq<EventModel>,
        nm: Seq<crate::model::NotifyModel>,
        tr: Seq<Seq<char>>,
        now_ms: int,
        a: AlertEvent,
    ) -> bool {
        let lg = cfg.roles.logi_characters@.map_values(|s: String| s@);
        let nt = cfg.roles.neut_sensitive_characters@.map_values(|s: String| s@);
        let c = rule_cfg(cfg.rules@, a.rule_id);
        let iv = match c {
            Some(x) => x.ignore_vorton,
            None => true,
        };
        &&& (match c {
            Some(x) => x.enabled,
            None => false,
        })
        &&& off_cooldown(
            cds,
            a.rule_id,
            match c {
                Some(x) => x.cooldown_seconds as int,
                None => 3,
            },
            now_ms,
        )
        &&& rule_message(a.rule_id, cm, nm, tr, lg, nt, iv) == Some(a.message@)
        &&& a.sound == (match c {
            Some(x) => x.sound,
            None => AlertSound::Default,
        })
        &&& a.timestamp_ms as int == (if cm.len() > 0 {
            cm[0].timestamp_ms
        } else if nm.len() > 0 {
            nm[0].timestamp_ms
        } else {
            0
        })
    }

    /// Evaluate one rule: if it is enabled, off cooldown (relative to the
    /// `cds0` baseline) and its condition holds, append its alert and put
    /// it on cooldown; otherwise change nothing.
    fn eval_one(
        &mut self,
        rule_id: AlertRuleId,
        combat_events: &Vec<CombatEvent>,
        notify_events: &Vec<NotifyEvent>,
        tracked_characters: &Vec<String>,
        now_ms: u64,
        timestamp_ms: u64,
        alerts: &mut Vec<AlertEvent>,
        Ghost(cfg): Ghost<AlertEngineConfig>,
        Ghost(cds0): Ghost<Seq<(AlertRuleId, u64)>>,
    )
        requires
            old(self).config_spec() == cfg,
            cd_of(old(self).cooldowns_spec(), rule_id) == cd_of(cds0, rule_id),
            timestamp_ms as int == ({
                let cm = models(combat_events@);
                let nm = notify_models(notify_events@);
                if cm.len() > 0 {
                    cm[0].timestamp_ms
                } else if nm.len() > 0 {
                    nm[0].timestamp_ms
                } else {
                    0
                }
            }),
        ensures
            final(self).config_spec() == cfg,
            ({
                let cm = models(combat_events@);
                let nm = notify_models(notify_events@);
                let tr = tracked_characters@.map_values(|s: String| s@);
                let fires = Self::rule_fires(cfg, cds0, cm, nm, tr, now_ms as int, rule_id);
                &&& (fires ==> {
                    &&& final(alerts)@.len() == old(alerts)@.len() + 1
                    &&& final(alerts)@.last().rule_id == rule_id
                    &&& Self::alert_ok(
                        cfg,
                        cds0,
                        cm,
                        nm,
                        tr,
                        now_ms as int,
                        final(alerts)@.last(),
                    )
                    &&& forall|k: int|
                        0 <= k < old(alerts)@.len() ==> final(alerts)@[k] == old(alerts)@[k]
                    &&& cd_of(final(self).cooldowns_spec(), rule_id) == Some(now_ms as int)
                })
                &&& (!fires ==> final(alerts)@ == old(alerts)@ && final(self).cooldowns_spec()
                    == old(self).cooldowns_spec())
            }),
            forall|other: AlertRuleId|
                other != rule_id ==> #[trigger] cd_of(final(self).cooldowns_spec(), other)
                    == cd_of(old(self).cooldowns_spec(), other),
    {
        let ghost cm = models(combat_events@);
        let ghost nm = notify_models(notify_events@);
        let ghost tr = tracked_characters@.map_values(|s: String| s@);
        let enabled = self.config.is_enabled(rule_id);
        let cooldown = self.config.get_cooldown(rule_id);
        let last = cd_lookup(&self.cooldowns, rule_id);
        let off_cd: bool = match last {
            Some(l) => now_ms >= l && (now_ms - l) / 1000 >= cooldown,
            None => true,
        };
        proof {
            match cd_of(cds0, rule_id) {
                Some(l) => {
                    assert((now_ms >= l && (now_ms - l) / 1000 >= cooldown) == (now_ms - l
                        >= cooldown * 1000)) by (nonlinear_arith)
                        requires
                            0 <= l <= u64::MAX,
                            0 <= now_ms <= u64::MAX,
                            0 <= cooldown,
                    ;
                },
                None => {},
            }
        }
        if enabled && off_cd {
            let iv = self.config.get_ignore_vorton(rule_id);
            match evaluate_trigger(
                rule_id,
                combat_events,
                notify_events,
                tracked_characters,
                &self.config.roles.logi_characters,
                &self.config.roles.neut_sensitive_characters,
                iv,
            ) {
                Some(message) => {
                    let sound = self.config.get_sound(rule_id);
                    self.mark_fired(rule_id, now_ms);
                    let ghost alerts0 = alerts@;
                    alerts.push(AlertEvent { rule_id, timestamp_ms, message, sound });
                    proof {
                        assert(Self::rule_fires(cfg, cds0, cm, nm, tr, now_ms as int, rule_id));
                        assert(forall|k: int|
                            0 <= k < alerts0.len() ==> #[trigger] alerts@[k] == alerts0[k]);
                    }
                },
                None => {
                    proof {
                        assert(!Self::rule_fires(cfg, cds0, cm, nm, tr, now_ms as int, rule_id));
                    }
                },
            }
        } else {
            proof {
                assert(!Self::rule_fires(cfg, cds0, cm, nm, tr, now_ms as int, rule_id));
            }
        }
    }

    /// Evaluate every rule against the fresh events, in rule order: an
    /// alert fires exactly for each enabled rule off cooldown whose
    /// condition holds, carrying the rule's message, its configured sound,
    /// and the batch's first timestamp; each fired rule goes on cooldown at
    /// `now_ms`, every other rule's cooldown is untouched, and no rule
    /// fires twice in one call.
    pub fn evaluate(
        &mut self,
        combat_events: &Vec<CombatEvent>,
        notify_events: &Vec<NotifyEvent>,
        tracked_characters: &Vec<String>,
        now_ms: u64,
    ) -> (r: Vec<AlertEvent>)
        ensures
            final(self).config_spec() == old(self).config_spec(),
            forall|idx: int|
                0 <= idx < r@.len() ==> Self::alert_ok(
                    old(self).config_spec(),
                    old(self).cooldowns_spec(),
                    models(combat_events@),
                    notify_models(notify_events@),
                    tracked_characters@.map_values(|s: String| s@),
                    now_ms as int,
                    #[trigger] r@[idx],
                ),
            forall|i: int, j: int|
                0 <= i < j < r@.len() ==> (#[trigger] r@[i]).rule_id != (
                #[trigger] r@[j]).rule_id,
            forall|idx: int|
                0 <= idx < r@.len() ==> cd_of(
                    final(self).cooldowns_spec(),
                    (#[trigger] r@[idx]).rule_id,
                ) == Some(now_ms as int),
            ({
                let cfg0 = old(self).config_spec();
                let cds0 = old(self).cooldowns_spec();
                let cm = models(combat_events@);
                let nm = notify_models(notify_events@);
                let tr = tracked_characters@.map_values(|s: String| s@);
                forall|id: AlertRuleId|
                    all_rules().contains(id) && #[trigger] Self::rule_fires(
                        cfg0,
                        cds0,
                        cm,
                        nm,
                        tr,
                        now_ms as int,
                        id,
                    ) ==> exists|idx: int|
                        0 <= idx < r@.len() && (#[trigger] r@[idx]).rule_id == id
            }),
            forall|id: AlertRuleId|
                !(exists|idx: int| 0 <= idx < r@.len() && (#[trigger] r@[idx]).rule_id == id)
                    ==> #[trigger] cd_of(final(self).cooldowns_spec(), id) == cd_of(
                    old(self).cooldowns_spec(),
                    id,
                ),
    {
        let ghost cfg = self.config;
        let ghost cds0 = self.cooldowns@;
        let timestamp_ms: u64 = if combat_events.len() > 0 {
            combat_events[0].timestamp_ms
        } else if notify_events.len() > 0 {
            notify_events[0].timestamp_ms
        } else {
            0
        };
        proof {
            if combat_events@.len() > 0 {
                assert(models(combat_events@)[0] == combat_events@[0]@);
            } else if notify_events@.len() > 0 {
                assert(notify_models(notify_events@)[0] == notify_events@[0]@);
            }
        }
        let mut alerts: Vec<AlertEvent> = Vec::new();
        self.eval_one(
            AlertRuleId::EnvironmentalDamage,
            combat_events,
            notify_events,
            tracked_characters,
            now_ms,
            timestamp_ms,
            &mut alerts,
            Ghost(cfg),
            Ghost(cds0),
        );
        self.eval_one(
            AlertRuleId::FriendlyFire,
            combat_events,
            notify_events,
            tracked_characters,
            now_ms,
            timestamp_ms,
            &mut alerts,
            Ghost(cfg),
            Ghost(cds0),
        );
        self.eval_one(
            AlertRuleId::LogiTakingDamage,
            combat_events,
            notify_events,
            tracked_characters,
            now_ms,
            timestamp_ms,
            &mut alerts,
            Ghost(cfg),
            Ghost(cds0),
        );
        self.eval_one(
            AlertRuleId::NeutSensitiveNeuted,
            combat_events,
            notify_events,
            tracked_characters,
            now_ms,
            timestamp_ms,
            &mut alerts,
            Ghost(cfg),
            Ghost(cds0),
        );
        self.eval_one(
            AlertRuleId::CapacitorFailure,
            combat_events,
            notify_events,
            tracked_characters,
            now_ms,
            timestamp_ms,
            &mut alerts,
            Ghost(cfg),
            Ghost(cds0),
        );
        self.eval_one(
            AlertRuleId::LogiNeuted,
            combat_events,
            notify_events,
            tracked_characters,
            now_ms,
            timestamp_ms,
            &mut alerts,
            Ghost(cfg),
            Ghost(cds0),
        );
        alerts
    }
}

/// The last fire time recorded for a rule.
fn cd_lookup(cds: &Vec<(AlertRuleId, u64)>, id: AlertRuleId) -> (r: Option<u64>)
    ensures
        match r {
            Some(t) => cd_of(cds@, id) == Some(t as int),
            None => cd_of(cds@, id) is None,
        },
{
    let n = cds.len();
    proof {
        assert(cds@.skip(0) =~= cds@);
    }
    let mut i: usize = 0;
    while i < n
        invariant
            i <= n,
            n == cds@.len(),
            cd_of(cds@, id) == cd_of(cds@.skip(i as int), id),
        decreases n - i,
    {
        proof {
            assert(cds@.skip(i as int)[0] == cds@[i as int]);
            assert(cds@.skip(i as int).drop_first() =~= cds@.skip(i + 1));
        }
        if cds[i].0 == id {
            return Some(cds[i].1);
        }
        i += 1;
    }
    proof {
        assert(cds@.skip(n as int) =~= Seq::<(AlertRuleId, u64)>::empty());
    }
    None
}

} // verus!
