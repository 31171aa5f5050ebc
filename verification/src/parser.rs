//! The line parser: one raw log line in, zero or one structured event out.
//!
//! The grammar is stated by spec functions and the executable parser is
//! proved to follow them exactly. The parser's only state is the session
//! anchor: the first absolute time it has seen, from a `Session Started:`
//! header or from the first event line; all event timestamps are offsets
//! from it.

use vstd::prelude::*;

use crate::datetime::epoch_secs;
use crate::datetime::epoch_seconds;
use crate::datetime::parse_timestamp;
use crate::datetime::ts_day;
use crate::datetime::ts_hour;
use crate::datetime::ts_minute;
use crate::datetime::ts_month;
use crate::datetime::ts_second;
use crate::datetime::ts_valid;
use crate::datetime::ts_year;
use crate::datetime::DateTime;
use crate::markup::clean_markup;
use crate::markup::strip_tags_chars;
use crate::model::CombatEvent;
use crate::model::Direction;
use crate::model::EventKind;
use crate::model::EventModel;
use crate::model::NotifyEvent;
use crate::numbers::parse_milli;
use crate::numbers::parse_milli_spec;
use crate::text::chars_to_string;
use crate::text::contains_sub;
use crate::text::find_sub;
use crate::text::find_sub_from;
use crate::text::find_ws;
use crate::text::find_ws_from;
use crate::text::has_sub;
use crate::text::lemma_find_sub_some;
use crate::text::lemma_rfind_sub_some;
use crate::text::lower_chars;
use crate::text::lower_seq;
use crate::text::rfind_sub;
use crate::text::rfind_sub_in;
use crate::text::seq_eq;
use crate::text::starts_with;
use crate::text::starts_with_pat;
use crate::text::str_chars;
use crate::text::subrange_copy;
use crate::text::trim_chars;
use crate::text::trim_spec;

verus! {

/// Header line prefix that (re)sets the session anchor.
pub open spec fn session_prefix() -> Seq<char> {
    "Session Started:"@
}

/// Tag that marks a combat line.
pub open spec fn combat_tag() -> Seq<char> {
    "(combat)"@
}

/// Tag that marks a notify line.
pub open spec fn notify_tag() -> Seq<char> {
    "(notify)"@
}

/// Segment separator inside a combat body.
pub open spec fn seg_sep() -> Seq<char> {
    " - "@
}

/// Color marker that labels an energy-drain line as incoming.
///
/// Direction of a drain is carried by a color attribute of the raw line
/// rather than by text; which of the two colors means which direction is a
/// convention of the log producer, and the text fallback below keeps the
/// open question of `drained to` phrasing out of this constant.
pub open spec fn drain_color_incoming() -> Seq<char> {
    "<color=0xffe57f7f>"@
}

/// Color marker that labels an energy-drain line as outgoing.
pub open spec fn drain_color_outgoing() -> Seq<char> {
    "<color=0xff7fffff>"@
}

/// `s` with every leading `[` removed.
pub open spec fn drop_brackets(s: Seq<char>) -> Seq<char>
    decreases s.len(),
{
    if s.len() > 0 && s[0] == '[' {
        drop_brackets(s.drop_first())
    } else {
        s
    }
}

/// Epoch seconds named by the fields of a valid timestamp text.
pub open spec fn ts_to_epoch(s: Seq<char>) -> int {
    epoch_secs(
        DateTime {
            year: ts_year(s) as u32,
            month: ts_month(s) as u32,
            day: ts_day(s) as u32,
            hour: ts_hour(s) as u32,
            minute: ts_minute(s) as u32,
            second: ts_second(s) as u32,
        },
    )
}

/// The absolute time of a line's leading bracketed timestamp: the text
/// before the first `]`, leading `[`s and whitespace removed; `None` when
/// that text is not a valid timestamp.
pub open spec fn extract_ts_epoch(s: Seq<char>) -> Option<int> {
    match find_sub_from(s, "]"@, 0) {
        None => None,
        Some(j) => {
            let inside = trim_spec(drop_brackets(s.subrange(0, j)));
            if ts_valid(inside) {
                Some(ts_to_epoch(inside))
            } else {
                None
            }
        },
    }
}

/// Event kind, by fixed phrases in the cleaned, lower-cased body.
pub open spec fn classify_kind(lower: Seq<char>) -> EventKind {
    if has_sub(lower, "repaired to"@) || has_sub(lower, "repaired by"@) || has_sub(
        lower,
        "boosted to"@,
    ) || has_sub(lower, "boosted by"@) {
        EventKind::Repair
    } else if has_sub(lower, "capacitor transmitted"@) {
        EventKind::CapacitorTransfer
    } else if has_sub(lower, "energy neutralized"@) || has_sub(lower, "drained"@) {
        EventKind::EnergyDrain
    } else {
        EventKind::Damage
    }
}

/// Direction by textual preposition, for every kind but energy drain —
/// and the documented fallback for drains without a color marker.
pub open spec fn text_direction(lower: Seq<char>) -> Option<Direction> {
    if has_sub(lower, " to "@) || has_sub(lower, " against "@) {
        Some(Direction::Outgoing)
    } else if has_sub(lower, " from "@) || has_sub(lower, " by "@) {
        Some(Direction::Incoming)
    } else {
        None
    }
}

/// Direction of an energy drain: primarily by the color marker embedded in
/// the raw (unstripped) line, with the text rule as fallback.
pub open spec fn drain_direction(raw: Seq<char>, lower: Seq<char>) -> Option<Direction> {
    if has_sub(raw, drain_color_incoming()) {
        Some(Direction::Incoming)
    } else if has_sub(raw, drain_color_outgoing()) {
        Some(Direction::Outgoing)
    } else {
        text_direction(lower)
    }
}

/// Hit-quality words that may trail a damage line as a final segment.
pub open spec fn is_quality(seg: Seq<char>) -> bool {
    ||| seg == "wrecks"@
    ||| seg == "smashes"@
    ||| seg == "penetrates"@
    ||| seg == "hits"@
    ||| seg == "lightly hits"@
    ||| seg == "barely scratches"@
    ||| seg == "glances off"@
    ||| seg == "grazes"@
    ||| seg == "misses"@
    ||| seg == "misses completely"@
}

/// The direction-and-kind prefix phrases stripped from the entity text,
/// longest first; matching is case-insensitive, the kept text keeps its
/// case.
pub open spec fn strip_entity_prefix(e: Seq<char>) -> Seq<char> {
    let le = lower_seq(e);
    if starts_with(le, "remote armor repaired to "@) {
        e.skip("remote armor repaired to "@.len() as int)
    } else if starts_with(le, "remote armor repaired by "@) {
        e.skip("remote armor repaired by "@.len() as int)
    } else if starts_with(le, "remote shield boosted to "@) {
        e.skip("remote shield boosted to "@.len() as int)
    } else if starts_with(le, "remote shield boosted by "@) {
        e.skip("remote shield boosted by "@.len() as int)
    } else if starts_with(le, "remote hull repaired to "@) {
        e.skip("remote hull repaired to "@.len() as int)
    } else if starts_with(le, "remote hull repaired by "@) {
        e.skip("remote hull repaired by "@.len() as int)
    } else if starts_with(le, "capacitor transmitted to "@) {
        e.skip("capacitor transmitted to "@.len() as int)
    } else if starts_with(le, "capacitor transmitted by "@) {
        e.skip("capacitor transmitted by "@.len() as int)
    } else if starts_with(le, "energy neutralized to "@) {
        e.skip("energy neutralized to "@.len() as int)
    } else if starts_with(le, "energy neutralized by "@) {
        e.skip("energy neutralized by "@.len() as int)
    } else if starts_with(le, "energy neutralized from "@) {
        e.skip("energy neutralized from "@.len() as int)
    } else if starts_with(le, "energy neutralized "@) {
        e.skip("energy neutralized "@.len() as int)
    } else if starts_with(le, "energy drained to "@) {
        e.skip("energy drained to "@.len() as int)
    } else if starts_with(le, "energy drained from "@) {
        e.skip("energy drained from "@.len() as int)
    } else if starts_with(le, "drained to "@) {
        e.skip("drained to "@.len() as int)
    } else if starts_with(le, "drained by "@) {
        e.skip("drained by "@.len() as int)
    } else if starts_with(le, "drained from "@) {
        e.skip("drained from "@.len() as int)
    } else if starts_with(le, "repaired to "@) {
        e.skip("repaired to "@.len() as int)
    } else if starts_with(le, "repaired by "@) {
        e.skip("repaired by "@.len() as int)
    } else if starts_with(le, "boosted to "@) {
        e.skip("boosted to "@.len() as int)
    } else if starts_with(le, "boosted by "@) {
        e.skip("boosted by "@.len() as int)
    } else if starts_with(le, "against "@) {
        e.skip("against "@.len() as int)
    } else if starts_with(le, "from "@) {
        e.skip("from "@.len() as int)
    } else if starts_with(le, "to "@) {
        e.skip("to "@.len() as int)
    } else if starts_with(le, "by "@) {
        e.skip("by "@.len() as int)
    } else {
        e
    }
}

/// The magnitude of the body: its first whitespace-delimited token read as
/// a signed decimal, sign discarded; the rest of the body follows, with a
/// `GJ` unit token stripped. `None` when the token is no number or its
/// milli-value does not fit in a `u64`.
pub open spec fn split_magnitude(cleaned: Seq<char>) -> Option<(int, Seq<char>)> {
    let token = match find_ws_from(cleaned, 0) {
        Some(w) => cleaned.subrange(0, w),
        None => cleaned,
    };
    let rem0 = match find_ws_from(cleaned, 0) {
        Some(w) => trim_spec(cleaned.skip(w)),
        None => Seq::<char>::empty(),
    };
    match parse_milli_spec(token) {
        None => None,
        Some(m) => if m > u64::MAX {
            None
        } else {
            let rem = if rem0 == "GJ"@ {
                Seq::<char>::empty()
            } else if starts_with(rem0, "GJ "@) {
                rem0.skip("GJ "@.len() as int)
            } else {
                rem0
            };
            Some((m, rem))
        },
    }
}

/// Split the remaining body into entity text and action name on the last
/// ` - ` separators: for damage, a trailing hit-quality segment is dropped
/// first; the next-from-right segment is the action name; everything left
/// (dashes in the entity name included) is the entity text.
pub open spec fn split_entity_action(rem: Seq<char>, kind: EventKind) -> (Seq<char>, Seq<char>) {
    let rem2 = if kind == EventKind::Damage {
        match rfind_sub(rem, seg_sep()) {
            Some(q) => if is_quality(lower_seq(trim_spec(rem.skip(q + seg_sep().len())))) {
                rem.subrange(0, q)
            } else {
                rem
            },
            None => rem,
        }
    } else {
        rem
    };
    match rfind_sub(rem2, seg_sep()) {
        Some(a) => (
            trim_spec(rem2.subrange(0, a)),
            trim_spec(rem2.skip(a + seg_sep().len())),
        ),
        None => (trim_spec(rem2), Seq::<char>::empty()),
    }
}

/// What one parse step yields: the anchor afterwards, and the event if any.
#[verifier::ext_equal]
pub struct ParseOutcome {
    pub anchor: Option<int>,
    pub event: Option<EventModel>,
}

/// The combat grammar past tag and timestamp: body cleaning, kind and
/// direction classification, magnitude, entity and action extraction,
/// anchor bookkeeping.
pub open spec fn parse_combat_body(
    anchor: Option<int>,
    trimmed: Seq<char>,
    owner: Seq<char>,
    ts: int,
) -> ParseOutcome {
    let p = find_sub_from(trimmed, combat_tag(), 0).unwrap();
    let raw_body = trim_spec(trimmed.skip(p + combat_tag().len()));
    let cleaned = clean_markup(raw_body);
    let lower = lower_seq(cleaned);
    let kind = classify_kind(lower);
    let dir_opt = if kind == EventKind::EnergyDrain {
        drain_direction(trimmed, lower)
    } else {
        text_direction(lower)
    };
    match dir_opt {
        None => ParseOutcome { anchor, event: None },
        Some(dir) => match split_magnitude(cleaned) {
            None => ParseOutcome { anchor, event: None },
            Some(mr) => {
                let ea = split_entity_action(mr.1, kind);
                let entity = trim_spec(strip_entity_prefix(ea.0));
                if entity.len() == 0 {
                    ParseOutcome { anchor, event: None }
                } else {
                    let act = if ea.1.len() == 0 {
                        entity
                    } else {
                        ea.1
                    };
                    let a = if anchor is None {
                        ts
                    } else {
                        anchor.unwrap()
                    };
                    if ts < a {
                        ParseOutcome { anchor: Some(a), event: None }
                    } else {
                        ParseOutcome {
                            anchor: Some(a),
                            event: Some(
                                EventModel {
                                    timestamp_ms: (ts - a) * 1000,
                                    source: if dir == Direction::Outgoing {
                                        owner
                                    } else {
                                        entity
                                    },
                                    target: if dir == Direction::Outgoing {
                                        entity
                                    } else {
                                        owner
                                    },
                                    action_name: act,
                                    amount_milli: mr.0,
                                    direction: dir,
                                    kind: kind,
                                    character: owner,
                                },
                            ),
                        }
                    }
                }
            },
        },
    }
}

/// One whole parse step: header handling, tag filtering, timestamp, body.
pub open spec fn parse_line_spec(
    anchor: Option<int>,
    line: Seq<char>,
    owner: Seq<char>,
) -> ParseOutcome {
    let trimmed = trim_spec(line);
    if trimmed.len() == 0 {
        ParseOutcome { anchor, event: None }
    } else if starts_with(trimmed, session_prefix()) {
        let rest = trim_spec(trimmed.skip(session_prefix().len() as int));
        if ts_valid(rest) {
            ParseOutcome { anchor: Some(ts_to_epoch(rest)), event: None }
        } else {
            ParseOutcome { anchor, event: None }
        }
    } else if !has_sub(trimmed, combat_tag()) {
        ParseOutcome { anchor, event: None }
    } else {
        match extract_ts_epoch(trimmed) {
            None => ParseOutcome { anchor, event: None },
            Some(ts) => parse_combat_body(anchor, trimmed, owner, ts),
        }
    }
}

/// Remove leading `[`s, per [`drop_brackets`].
pub fn drop_brackets_chars(v: &Vec<char>) -> (r: Vec<char>)
    ensures
        r@ == drop_brackets(v@),
{
    let n = v.len();
    proof {
        assert(v@.subrange(0, n as int) =~= v@);
    }
    let mut a: usize = 0;
    while a < n && v[a] == '['
        invariant
            a <= n,
            n == v.len(),
            drop_brackets(v@) == drop_brackets(v@.subrange(a as int, n as int)),
        decreases n - a,
    {
        assert(v@.subrange(a as int, n as int).drop_first() =~= v@.subrange(
            a + 1 as int,
            n as int,
        ));
        a += 1;
    }
    assert(drop_brackets(v@) == v@.subrange(a as int, n as int));
    subrange_copy(v, a, n)
}

/// Case-insensitively strip `p` from the front of `e`, keeping case.
fn try_strip(e: &Vec<char>, p: &str) -> (r: Option<Vec<char>>)
    ensures
        match r {
            Some(x) => starts_with(lower_seq(e@), p@) && x@ == e@.skip(p@.len() as int),
            None => !starts_with(lower_seq(e@), p@),
        },
{
    let pv = str_chars(p);
    let le = lower_chars(e);
    if starts_with_pat(&le, &pv) {
        let x = subrange_copy(e, pv.len(), e.len());
        assert(x@ =~= e@.skip(pv@.len() as int));
        Some(x)
    } else {
        None
    }
}

/// Strip the leading direction-and-kind phrase, per [`strip_entity_prefix`].
fn strip_entity_prefix_chars(e: &Vec<char>) -> (r: Vec<char>)
    ensures
        r@ == strip_entity_prefix(e@),
{
    if let Some(x) = try_strip(e, "remote armor repaired to ") {
        return x;
    }
    if let Some(x) = try_strip(e, "remote armor repaired by ") {
        return x;
    }
    if let Some(x) = try_strip(e, "remote shield boosted to ") {
        return x;
    }
    if let Some(x) = try_strip(e, "remote shield boosted by ") {
        return x;
    }
    if let Some(x) = try_strip(e, "remote hull repaired to ") {
        return x;
    }
    if let Some(x) = try_strip(e, "remote hull repaired by ") {
        return x;
    }
    if let Some(x) = try_strip(e, "capacitor transmitted to ") {
        return x;
    }
    if let Some(x) = try_strip(e, "capacitor transmitted by ") {
        return x;
    }
    if let Some(x) = try_strip(e, "energy neutralized to ") {
        return x;
    }
    if let Some(x) = try_strip(e, "energy neutralized by ") {
        return x;
    }
    if let Some(x) = try_strip(e, "energy neutralized from ") {
        return x;
    }
    if let Some(x) = try_strip(e, "energy neutralized ") {
        return x;
    }
    if let Some(x) = try_strip(e, "energy drained to ") {
        return x;
    }
    if let Some(x) = try_strip(e, "energy drained from ") {
        return x;
    }
    if let Some(x) = try_strip(e, "drained to ") {
        return x;
    }
    if let Some(x) = try_strip(e, "drained by ") {
        return x;
    }
    if let Some(x) = try_strip(e, "drained from ") {
        return x;
    }
    if let Some(x) = try_strip(e, "repaired to ") {
        return x;
    }
    if let Some(x) = try_strip(e, "repaired by ") {
        return x;
    }
    if let Some(x) = try_strip(e, "boosted to ") {
        return x;
    }
    if let Some(x) = try_strip(e, "boosted by ") {
        return x;
    }
    if let Some(x) = try_strip(e, "against ") {
        return x;
    }
    if let Some(x) = try_strip(e, "from ") {
        return x;
    }
    if let Some(x) = try_strip(e, "to ") {
        return x;
    }
    if let Some(x) = try_strip(e, "by ") {
        return x;
    }
    subrange_copy(e, 0, e.len())
}

/// Executable test for [`is_quality`].
fn is_quality_chars(seg: &Vec<char>) -> (r: bool)
    ensures
        r == is_quality(seg@),
{
    seq_eq(seg, &str_chars("wrecks")) || seq_eq(seg, &str_chars("smashes")) || seq_eq(
        seg,
        &str_chars("penetrates"),
    ) || seq_eq(seg, &str_chars("hits")) || seq_eq(seg, &str_chars("lightly hits")) || seq_eq(
        seg,
        &str_chars("barely scratches"),
    ) || seq_eq(seg, &str_chars("glances off")) || seq_eq(seg, &str_chars("grazes")) || seq_eq(
        seg,
        &str_chars("misses"),
    ) || seq_eq(seg, &str_chars("misses completely"))
}

/// Split the body after the magnitude into entity text and action name,
/// per [`split_entity_action`].
fn split_entity_action_chars(rem: &Vec<char>, kind: EventKind) -> (r: (Vec<char>, Vec<char>))
    ensures
        r.0@ == split_entity_action(rem@, kind).0,
        r.1@ == split_entity_action(rem@, kind).1,
{
    let sep = str_chars(" - ");
    let n = rem.len();
    let rem2: Vec<char> = if kind == EventKind::Damage {
        match rfind_sub_in(rem, &sep) {
            Some(q) => {
                proof {
                    lemma_rfind_sub_some(rem@, sep@, rem@.len() - sep@.len(), q as int);
                }
                let tail = subrange_copy(rem, q + sep.len(), n);
                assert(tail@ =~= rem@.skip(q + seg_sep().len()));
                let tl = lower_chars(&trim_chars(&tail));
                if is_quality_chars(&tl) {
                    subrange_copy(rem, 0, q)
                } else {
                    subrange_copy(rem, 0, n)
                }
            },
            None => subrange_copy(rem, 0, n),
        }
    } else {
        subrange_copy(rem, 0, n)
    };
    proof {
        assert(rem@.subrange(0, rem@.len() as int) =~= rem@);
    }
    let n2 = rem2.len();
    match rfind_sub_in(&rem2, &sep) {
        Some(a) => {
            proof {
                lemma_rfind_sub_some(rem2@, sep@, rem2@.len() - sep@.len(), a as int);
            }
            let head = subrange_copy(&rem2, 0, a);
            let tail = subrange_copy(&rem2, a + sep.len(), n2);
            assert(tail@ =~= rem2@.skip(a + seg_sep().len()));
            (trim_chars(&head), trim_chars(&tail))
        },
        None => (trim_chars(&rem2), Vec::new()),
    }
}

/// Executable [`text_direction`].
fn text_direction_chars(lower: &Vec<char>) -> (r: Option<Direction>)
    ensures
        r == text_direction(lower@),
{
    if contains_sub(lower, &str_chars(" to ")) || contains_sub(lower, &str_chars(" against ")) {
        Some(Direction::Outgoing)
    } else if contains_sub(lower, &str_chars(" from ")) || contains_sub(lower, &str_chars(" by ")) {
        Some(Direction::Incoming)
    } else {
        None
    }
}

/// Meaning of [`split_entities_and_weapon`]: entity text and action split
/// on the last separators, prefix phrase stripped, the empty action
/// defaulted, and the counterpart placed by direction.
pub open spec fn entities_and_weapon_spec(
    remainder: Seq<char>,
    direction: Direction,
    kind: EventKind,
    listener: Seq<char>,
) -> Option<(Seq<char>, Seq<char>, Seq<char>)> {
    let ea = split_entity_action(remainder, kind);
    let entity = trim_spec(strip_entity_prefix(ea.0));
    if entity.len() == 0 {
        None
    } else {
        let act = if ea.1.len() == 0 {
            entity
        } else {
            ea.1
        };
        if direction == Direction::Outgoing {
            Some((listener, entity, act))
        } else {
            Some((entity, listener, act))
        }
    }
}

/// Split a combat body (after the magnitude) into `(source, target,
/// action_name)` for the listening character, per
/// [`entities_and_weapon_spec`].
pub fn split_entities_and_weapon(
    remainder: &str,
    direction: Direction,
    kind: EventKind,
    listener: &str,
) -> (r: Option<(String, String, String)>)
    ensures
        match (r, entities_and_weapon_spec(remainder@, direction, kind, listener@)) {
            (Some(t), Some(m)) => t.0@ == m.0 && t.1@ == m.1 && t.2@ == m.2,
            (None, None) => true,
            _ => false,
        },
{
    let rv = str_chars(remainder);
    let (etext, act0) = split_entity_action_chars(&rv, kind);
    let entity = trim_chars(&strip_entity_prefix_chars(&etext));
    if entity.len() == 0 {
        return None;
    }
    let act: Vec<char> = if act0.len() == 0 {
        let c = subrange_copy(&entity, 0, entity.len());
        proof {
            assert(c@ =~= entity@);
        }
        c
    } else {
        act0
    };
    let entity_s = chars_to_string(&entity);
    let act_s = chars_to_string(&act);
    let listener_s = listener.to_owned();
    if direction == Direction::Outgoing {
        Some((listener_s, entity_s, act_s))
    } else {
        Some((entity_s, listener_s, act_s))
    }
}

/// Law: with an anchor in place, a parsed event's timestamp is exactly the
/// line's absolute time minus the anchor, and the anchor does not move.
pub proof fn lemma_anchor_offset(anchor: int, line: Seq<char>, owner: Seq<char>)
    requires
        parse_line_spec(Some(anchor), line, owner).event is Some,
    ensures
        parse_line_spec(Some(anchor), line, owner).anchor == Some(anchor),
        parse_line_spec(Some(anchor), line, owner).event.unwrap().timestamp_ms == (extract_ts_epoch(
            trim_spec(line),
        ).unwrap() - anchor) * 1000,
{
}

/// Law: parsing any line a second time, from the anchor the first parse
/// left behind, leaves that anchor exactly where it was — in particular a
/// session header seen twice does not shift timestamps twice.
pub proof fn lemma_anchor_idempotent(anchor: Option<int>, line: Seq<char>, owner: Seq<char>)
    ensures
        parse_line_spec(parse_line_spec(anchor, line, owner).anchor, line, owner).anchor
            == parse_line_spec(anchor, line, owner).anchor,
{
}

/// Keyword separating module name from the required amount in notify lines.
pub open spec fn requires_kw() -> Seq<char> {
    " requires "@
}

/// Keyword preceding the available amount in notify lines.
pub open spec fn has_only_kw() -> Seq<char> {
    "has only "@
}

/// What one notify parse step yields.
#[verifier::ext_equal]
pub struct NotifyOutcome {
    pub anchor: Option<int>,
    pub event: Option<crate::model::NotifyModel>,
}

/// The notify grammar past tag and timestamp: the module name before
/// ` requires `, the required amount after it, the available amount after
/// `has only `.
pub open spec fn parse_notify_body(
    anchor: Option<int>,
    trimmed: Seq<char>,
    owner: Seq<char>,
    ts: int,
) -> NotifyOutcome {
    let p = find_sub_from(trimmed, notify_tag(), 0).unwrap();
    let cleaned = clean_markup(trim_spec(trimmed.skip(p + notify_tag().len())));
    match find_sub_from(cleaned, requires_kw(), 0) {
        None => NotifyOutcome { anchor, event: None },
        Some(q) => {
            let module = trim_spec(cleaned.subrange(0, q));
            let rest = cleaned.skip(q + requires_kw().len());
            let rtok = match find_ws_from(rest, 0) {
                Some(w) => rest.subrange(0, w),
                None => rest,
            };
            match parse_milli_spec(rtok) {
                None => NotifyOutcome { anchor, event: None },
                Some(req) => if req > u64::MAX || module.len() == 0 {
                    NotifyOutcome { anchor, event: None }
                } else {
                    match find_sub_from(rest, has_only_kw(), 0) {
                        None => NotifyOutcome { anchor, event: None },
                        Some(h) => {
                            let rest2 = rest.skip(h + has_only_kw().len());
                            let atok = match find_ws_from(rest2, 0) {
                                Some(w) => rest2.subrange(0, w),
                                None => rest2,
                            };
                            match parse_milli_spec(atok) {
                                None => NotifyOutcome { anchor, event: None },
                                Some(av) => if av > u64::MAX {
                                    NotifyOutcome { anchor, event: None }
                                } else {
                                    let a = if anchor is None {
                                        ts
                                    } else {
                                        anchor.unwrap()
                                    };
                                    if ts < a {
                                        NotifyOutcome { anchor: Some(a), event: None }
                                    } else {
                                        NotifyOutcome {
                                            anchor: Some(a),
                                            event: Some(
                                                crate::model::NotifyModel {
                                                    timestamp_ms: (ts - a) * 1000,
                                                    character: owner,
                                                    module_name: module,
                                                    required_milli: req,
                                                    available_milli: av,
                                                },
                                            ),
                                        }
                                    }
                                },
                            }
                        },
                    }
                },
            }
        },
    }
}

/// One whole notify parse step.
pub open spec fn parse_notify_spec(
    anchor: Option<int>,
    line: Seq<char>,
    owner: Seq<char>,
) -> NotifyOutcome {
    let trimmed = trim_spec(line);
    if trimmed.len() == 0 {
        NotifyOutcome { anchor, event: None }
    } else if starts_with(trimmed, session_prefix()) {
        let rest = trim_spec(trimmed.skip(session_prefix().len() as int));
        if ts_valid(rest) {
            NotifyOutcome { anchor: Some(ts_to_epoch(rest)), event: None }
        } else {
            NotifyOutcome { anchor, event: None }
        }
    } else if !has_sub(trimmed, notify_tag()) {
        NotifyOutcome { anchor, event: None }
    } else {
        match extract_ts_epoch(trimmed) {
            None => NotifyOutcome { anchor, event: None },
            Some(ts) => parse_notify_body(anchor, trimmed, owner, ts),
        }
    }
}


/// What a batch of lines yields: the combat and notify events in line
/// order, and the anchor afterwards.
#[verifier::ext_equal]
pub struct BatchOutcome {
    pub combat: Seq<EventModel>,
    pub notify: Seq<crate::model::NotifyModel>,
    pub anchor: Option<int>,
}

/// Fold the two parsers over a run of lines: a line that parses as a
/// combat event is collected there; otherwise it is offered to the notify
/// parser; the anchor evolves line by line.
pub open spec fn parse_batch_spec(
    anchor: Option<int>,
    lines: Seq<Seq<char>>,
    owner: Seq<char>,
) -> BatchOutcome
    decreases lines.len(),
{
    if lines.len() == 0 {
        BatchOutcome { combat: Seq::empty(), notify: Seq::empty(), anchor }
    } else {
        let prev = parse_batch_spec(anchor, lines.drop_last(), owner);
        let o = parse_line_spec(prev.anchor, lines.last(), owner);
        match o.event {
            Some(m) => BatchOutcome {
                combat: prev.combat.push(m),
                notify: prev.notify,
                anchor: o.anchor,
            },
            None => {
                let n = parse_notify_spec(o.anchor, lines.last(), owner);
                match n.event {
                    Some(m) => BatchOutcome {
                        combat: prev.combat,
                        notify: prev.notify.push(m),
                        anchor: n.anchor,
                    },
                    None => BatchOutcome {
                        combat: prev.combat,
                        notify: prev.notify,
                        anchor: n.anchor,
                    },
                }
            },
        }
    }
}

/// The stateful line parser; its one piece of state is the session anchor,
/// in epoch seconds.
pub struct LineParser {
    anchor_epoch: Option<u64>,
}

/// The parser's anchor, as a mathematical value.
pub closed spec fn anchor_of(p: LineParser) -> Option<int> {
    match p.anchor_epoch {
        Some(a) => Some(a as int),
        None => None,
    }
}

impl LineParser {
    /// A parser with no anchor yet.
    pub fn new() -> (r: Self)
        ensures
            anchor_of(r) is None,
    {
        LineParser { anchor_epoch: None }
    }

    /// The absolute session-start time in epoch seconds, when known.
    pub fn get_base_time(&self) -> (r: Option<u64>)
        ensures
            match r {
                Some(x) => anchor_of(*self) == Some(x as int),
                None => anchor_of(*self) is None,
            },
    {
        self.anchor_epoch
    }

    /// Parse one log line for the character `source`, per
    /// [`parse_line_spec`]: the anchor afterwards and the event (if any)
    /// are exactly what the grammar names.
    pub fn parse_line(&mut self, line: &str, source: &str) -> (r: Option<CombatEvent>)
        ensures
            ({
                let o = parse_line_spec(anchor_of(*old(self)), line@, source@);
                &&& anchor_of(*final(self)) == o.anchor
                &&& match (r, o.event) {
                    (Some(e), Some(m)) => e@ == m,
                    (None, None) => true,
                    _ => false,
                }
            }),
    {
        let lv = str_chars(line);
        let tv = trim_chars(&lv);
        let ntv = tv.len();
        if ntv == 0 {
            return None;
        }
        let sp = str_chars("Session Started:");
        if starts_with_pat(&tv, &sp) {
            let rest0 = subrange_copy(&tv, sp.len(), ntv);
            proof {
                assert(rest0@ =~= tv@.skip(session_prefix().len() as int));
            }
            let rest = trim_chars(&rest0);
            match parse_timestamp(&rest) {
                Some(dt) => {
                    let e = epoch_seconds(&dt);
                    proof {
                        assert(dt == (DateTime {
                            year: ts_year(rest@) as u32,
                            month: ts_month(rest@) as u32,
                            day: ts_day(rest@) as u32,
                            hour: ts_hour(rest@) as u32,
                            minute: ts_minute(rest@) as u32,
                            second: ts_second(rest@) as u32,
                        }));
                    }
                    self.anchor_epoch = Some(e);
                },
                None => {},
            }
            return None;
        }
        let ct = str_chars("(combat)");
        let p = match find_sub(&tv, &ct) {
            Some(p) => p,
            None => {
                return None;
            },
        };
        proof {
            lemma_find_sub_some(tv@, ct@, 0, p as int);
        }
        let rb = str_chars("]");
        let j = match find_sub(&tv, &rb) {
            Some(j) => j,
            None => {
                return None;
            },
        };
        proof {
            lemma_find_sub_some(tv@, rb@, 0, j as int);
        }
        let bracket_part = subrange_copy(&tv, 0, j);
        let inside = trim_chars(&drop_brackets_chars(&bracket_part));
        let dt = match parse_timestamp(&inside) {
            Some(dt) => dt,
            None => {
                return None;
            },
        };
        let ts = epoch_seconds(&dt);
        proof {
            assert(dt == (DateTime {
                year: ts_year(inside@) as u32,
                month: ts_month(inside@) as u32,
                day: ts_day(inside@) as u32,
                hour: ts_hour(inside@) as u32,
                minute: ts_minute(inside@) as u32,
                second: ts_second(inside@) as u32,
            }));
            assert(extract_ts_epoch(tv@) == Some(ts as int));
        }
        let body0 = subrange_copy(&tv, p + ct.len(), ntv);
        proof {
            assert(body0@ =~= tv@.skip(p + combat_tag().len()));
        }
        let raw_body = trim_chars(&body0);
        let cleaned = strip_tags_chars(&raw_body);
        let lower = lower_chars(&cleaned);
        let kind: EventKind = if contains_sub(&lower, &str_chars("repaired to")) || contains_sub(
            &lower,
            &str_chars("repaired by"),
        ) || contains_sub(&lower, &str_chars("boosted to")) || contains_sub(
            &lower,
            &str_chars("boosted by"),
        ) {
            EventKind::Repair
        } else if contains_sub(&lower, &str_chars("capacitor transmitted")) {
            EventKind::CapacitorTransfer
        } else if contains_sub(&lower, &str_chars("energy neutralized")) || contains_sub(
            &lower,
            &str_chars("drained"),
        ) {
            EventKind::EnergyDrain
        } else {
            EventKind::Damage
        };
        assert(kind == classify_kind(lower@));
        let dir_opt: Option<Direction> = if kind == EventKind::EnergyDrain {
            if contains_sub(&tv, &str_chars("<color=0xffe57f7f>")) {
                Some(Direction::Incoming)
            } else if contains_sub(&tv, &str_chars("<color=0xff7fffff>")) {
                Some(Direction::Outgoing)
            } else {
                text_direction_chars(&lower)
            }
        } else {
            text_direction_chars(&lower)
        };
        let dir = match dir_opt {
            Some(d) => d,
            None => {
                return None;
            },
        };
        let ncl = cleaned.len();
        let (token, rem0): (Vec<char>, Vec<char>) = match find_ws(&cleaned) {
            Some(w) => {
                let t = subrange_copy(&cleaned, 0, w);
                let r0 = subrange_copy(&cleaned, w, ncl);
                proof {
                    assert(r0@ =~= cleaned@.skip(w as int));
                }
                (t, trim_chars(&r0))
            },
            None => {
                let t = subrange_copy(&cleaned, 0, ncl);
                proof {
                    assert(t@ =~= cleaned@);
                }
                (t, Vec::new())
            },
        };
        let mag = match parse_milli(&token) {
            Some(m) => m,
            None => {
                return None;
            },
        };
        let gj = str_chars("GJ");
        let gjs = str_chars("GJ ");
        let nr0 = rem0.len();
        let rem: Vec<char> = if seq_eq(&rem0, &gj) {
            Vec::new()
        } else if starts_with_pat(&rem0, &gjs) {
            let x = subrange_copy(&rem0, gjs.len(), nr0);
            proof {
                assert(x@ =~= rem0@.skip("GJ "@.len() as int));
            }
            x
        } else {
            let x = subrange_copy(&rem0, 0, nr0);
            proof {
                assert(x@ =~= rem0@);
            }
            x
        };
        let (etext, act0) = split_entity_action_chars(&rem, kind);
        let entity = trim_chars(&strip_entity_prefix_chars(&etext));
        if entity.len() == 0 {
            return None;
        }
        let act: Vec<char> = if act0.len() == 0 {
            let c = subrange_copy(&entity, 0, entity.len());
            proof {
                assert(c@ =~= entity@);
            }
            c
        } else {
            act0
        };
        let a = match self.anchor_epoch {
            Some(a) => a,
            None => ts,
        };
        self.anchor_epoch = Some(a);
        if ts < a {
            return None;
        }
        let rel_ms = (ts - a) * 1000;
        let entity_s = chars_to_string(&entity);
        let act_s = chars_to_string(&act);
        let owner_a = source.to_owned();
        let owner_b = source.to_owned();
        let (src_s, tgt_s) = if dir == Direction::Outgoing {
            (owner_a, entity_s)
        } else {
            (entity_s, owner_a)
        };
        let ev = CombatEvent {
            timestamp_ms: rel_ms,
            source: src_s,
            target: tgt_s,
            action_name: act_s,
            amount_milli: mag,
            direction: dir,
            kind,
            character: owner_b,
        };
        proof {
            let o = parse_line_spec(anchor_of(*old(self)), line@, source@);
            assert(o.event is Some);
            assert(ev@ =~= o.event.unwrap());
        }
        Some(ev)
    }

    /// Parse one log line as a notify event for the character `source`,
    /// per [`parse_notify_spec`].
    pub fn parse_notify(&mut self, line: &str, source: &str) -> (r: Option<NotifyEvent>)
        ensures
            ({
                let o = parse_notify_spec(anchor_of(*old(self)), line@, source@);
                &&& anchor_of(*final(self)) == o.anchor
                &&& match (r, o.event) {
                    (Some(e), Some(m)) => e@ == m,
                    (None, None) => true,
                    _ => false,
                }
            }),
    {
        let lv = str_chars(line);
        let tv = trim_chars(&lv);
        let ntv = tv.len();
        if ntv == 0 {
            return None;
        }
        let sp = str_chars("Session Started:");
        if starts_with_pat(&tv, &sp) {
            let rest0 = subrange_copy(&tv, sp.len(), ntv);
            proof {
                assert(rest0@ =~= tv@.skip(session_prefix().len() as int));
            }
            let rest = trim_chars(&rest0);
            match parse_timestamp(&rest) {
                Some(dt) => {
                    let e = epoch_seconds(&dt);
                    proof {
                        assert(dt == (DateTime {
                            year: ts_year(rest@) as u32,
                            month: ts_month(rest@) as u32,
                            day: ts_day(rest@) as u32,
                            hour: ts_hour(rest@) as u32,
                            minute: ts_minute(rest@) as u32,
                            second: ts_second(rest@) as u32,
                        }));
                    }
                    self.anchor_epoch = Some(e);
                },
                None => {},
            }
            return None;
        }
        let nt = str_chars("(notify)");
        let p = match find_sub(&tv, &nt) {
            Some(p) => p,
            None => {
                return None;
            },
        };
        proof {
            lemma_find_sub_some(tv@, nt@, 0, p as int);
        }
        let rb = str_chars("]");
        let j = match find_sub(&tv, &rb) {
            Some(j) => j,
            None => {
                return None;
            },
        };
        proof {
            lemma_find_sub_some(tv@, rb@, 0, j as int);
        }
        let bracket_part = subrange_copy(&tv, 0, j);
        let inside = trim_chars(&drop_brackets_chars(&bracket_part));
        let dt = match parse_timestamp(&inside) {
            Some(dt) => dt,
            None => {
                return None;
            },
        };
        let ts = epoch_seconds(&dt);
        proof {
            assert(dt == (DateTime {
                year: ts_year(inside@) as u32,
                month: ts_month(inside@) as u32,
                day: ts_day(inside@) as u32,
                hour: ts_hour(inside@) as u32,
                minute: ts_minute(inside@) as u32,
                second: ts_second(inside@) as u32,
            }));
            assert(extract_ts_epoch(tv@) == Some(ts as int));
        }
        let body0 = subrange_copy(&tv, p + nt.len(), ntv);
        proof {
            assert(body0@ =~= tv@.skip(p + notify_tag().len()));
        }
        let cleaned = strip_tags_chars(&trim_chars(&body0));
        let rk = str_chars(" requires ");
        let ncl = cleaned.len();
        let q = match find_sub(&cleaned, &rk) {
            Some(q) => q,
            None => {
                return None;
            },
        };
        proof {
            lemma_find_sub_some(cleaned@, rk@, 0, q as int);
        }
        let module = trim_chars(&subrange_copy(&cleaned, 0, q));
        let rest = subrange_copy(&cleaned, q + rk.len(), ncl);
        proof {
            assert(rest@ =~= cleaned@.skip(q + requires_kw().len()));
        }
        let nre = rest.len();
        let rtok = match find_ws(&rest) {
            Some(w) => subrange_copy(&rest, 0, w),
            None => {
                let t = subrange_copy(&rest, 0, nre);
                proof {
                    assert(t@ =~= rest@);
                }
                t
            },
        };
        let req = match parse_milli(&rtok) {
            Some(m) => m,
            None => {
                return None;
            },
        };
        if module.len() == 0 {
            return None;
        }
        let hk = str_chars("has only ");
        let h = match find_sub(&rest, &hk) {
            Some(h) => h,
            None => {
                return None;
            },
        };
        proof {
            lemma_find_sub_some(rest@, hk@, 0, h as int);
        }
        let rest2 = subrange_copy(&rest, h + hk.len(), nre);
        proof {
            assert(rest2@ =~= rest@.skip(h + has_only_kw().len()));
        }
        let nr2 = rest2.len();
        let atok = match find_ws(&rest2) {
            Some(w) => subrange_copy(&rest2, 0, w),
            None => {
                let t = subrange_copy(&rest2, 0, nr2);
                proof {
                    assert(t@ =~= rest2@);
                }
                t
            },
        };
        let av = match parse_milli(&atok) {
            Some(m) => m,
            None => {
                return None;
            },
        };
        let a = match self.anchor_epoch {
            Some(a) => a,
            None => ts,
        };
        self.anchor_epoch = Some(a);
        if ts < a {
            return None;
        }
        let rel_ms = (ts - a) * 1000;
        let ev = NotifyEvent {
            timestamp_ms: rel_ms,
            character: source.to_owned(),
            module_name: chars_to_string(&module),
            required_milli: req,
            available_milli: av,
        };
        proof {
            let o = parse_notify_spec(anchor_of(*old(self)), line@, source@);
            assert(o.event is Some);
            assert(ev@ =~= o.event.unwrap());
        }
        Some(ev)
    }

    /// Parse a batch of lines for the character `source`, per
    /// [`parse_batch_spec`]: combat events and notify events collected in
    /// line order, the anchor carried through.
    pub fn parse_batch(&mut self, lines: &Vec<String>, source: &str) -> (r: (
        Vec<CombatEvent>,
        Vec<NotifyEvent>,
    ))
        ensures
            ({
                let b = parse_batch_spec(
                    anchor_of(*old(self)),
                    lines@.map_values(|l: String| l@),
                    source@,
                );
                &&& r.0@.map_values(|e: CombatEvent| e@) == b.combat
                &&& r.1@.map_values(|e: NotifyEvent| e@) == b.notify
                &&& anchor_of(*final(self)) == b.anchor
            }),
    {
        let ghost lm = lines@.map_values(|l: String| l@);
        let ghost a0 = anchor_of(*old(self));
        let mut combat: Vec<CombatEvent> = Vec::new();
        let mut notify: Vec<NotifyEvent> = Vec::new();
        let n = lines.len();
        proof {
            assert(lm.len() == n);
            assert(lm.subrange(0, 0) =~= Seq::<Seq<char>>::empty());
            assert(combat@.map_values(|e: CombatEvent| e@) =~= Seq::<EventModel>::empty());
            assert(notify@.map_values(|e: NotifyEvent| e@)
                =~= Seq::<crate::model::NotifyModel>::empty());
        }
        let mut i: usize = 0;
        while i < n
            invariant
                i <= n,
                n == lines@.len(),
                lm == lines@.map_values(|l: String| l@),
                ({
                    let b = parse_batch_spec(a0, lm.subrange(0, i as int), source@);
                    &&& combat@.map_values(|e: CombatEvent| e@) == b.combat
                    &&& notify@.map_values(|e: NotifyEvent| e@) == b.notify
                    &&& anchor_of(*self) == b.anchor
                }),
            decreases n - i,
        {
            proof {
                assert(lm.subrange(0, i + 1 as int).drop_last() =~= lm.subrange(0, i as int));
                assert(lm.subrange(0, i + 1 as int).last() == lm[i as int]);
                assert(lm[i as int] == lines@[i as int]@);
            }
            let ghost combat0 = combat@;
            let ghost notify0 = notify@;
            match self.parse_line(lines[i].as_str(), source) {
                Some(e) => {
                    combat.push(e);
                    proof {
                        assert(combat@.map_values(|e2: CombatEvent| e2@) =~= combat0.map_values(
                            |e2: CombatEvent| e2@,
                        ).push(combat@.last()@));
                    }
                },
                None => {
                    match self.parse_notify(lines[i].as_str(), source) {
                        Some(e) => {
                            notify.push(e);
                            proof {
                                assert(notify@.map_values(|e2: NotifyEvent| e2@)
                                    =~= notify0.map_values(|e2: NotifyEvent| e2@).push(
                                    notify@.last()@,
                                ));
                            }
                        },
                        None => {},
                    }
                },
            }
            i += 1;
        }
        proof {
            assert(lm.subrange(0, n as int) =~= lm);
        }
        (combat, notify)
    }
}

} // verus!
