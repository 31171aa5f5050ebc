//! Local-chat parsing: location-change lines, and detection of runs from
//! the sequence of location changes (entering the unknown space opens a
//! run, any known location closes it).

use vstd::prelude::*;

use crate::datetime::epoch_seconds;
use crate::datetime::parse_timestamp;
use crate::datetime::ts_day;
use crate::datetime::ts_hour;
use crate::datetime::ts_minute;
use crate::datetime::ts_month;
use crate::datetime::ts_second;
use crate::datetime::ts_valid;
use crate::datetime::ts_year;
use crate::datetime::DateTime;
use crate::parser::drop_brackets;
use crate::parser::ts_to_epoch;
use crate::text::chars_to_string;
use crate::text::find_sub;
use crate::text::find_sub_from;
use crate::text::lemma_find_sub_some;
use crate::text::starts_with;
use crate::text::starts_with_pat;
use crate::text::str_chars;
use crate::text::subrange_copy;
use crate::text::trim_chars;
use crate::text::trim_spec;

verus! {

/// A location change seen in Local chat.
#[derive(Clone, Debug)]
pub struct LocationChange {
    /// Epoch milliseconds of the change.
    pub timestamp_ms: u64,
    /// The new location name.
    pub location: String,
}

impl LocationChange {
    /// Entering the unknown space opens a run.
    pub fn is_abyss_entry(&self) -> (r: bool)
        ensures
            r == (self.location@ == "Unknown"@),
    {
        let pat = str_chars("Unknown");
        let v = str_chars(self.location.as_str());
        crate::text::seq_eq(&v, &pat)
    }

    /// Any known location closes a run.
    pub fn is_abyss_exit(&self) -> (r: bool)
        ensures
            r == (self.location@ != "Unknown"@),
    {
        !self.is_abyss_entry()
    }
}

/// Leading byte-order-mark characters removed.
pub open spec fn drop_boms(s: Seq<char>) -> Seq<char>
    decreases s.len(),
{
    if s.len() > 0 && s[0] == '\u{feff}' {
        drop_boms(s.drop_first())
    } else {
        s
    }
}

/// The meaning of one Local chat line: a location change when the line has
/// the shape `[ <timestamp> ] EVE System > Channel changed to Local :
/// <location>`, with the timestamp in epoch milliseconds.
pub open spec fn parse_location_spec(line: Seq<char>) -> Option<(int, Seq<char>)> {
    let s = drop_boms(trim_spec(line));
    match find_sub_from(s, "]"@, 0) {
        None => None,
        Some(j) => {
            let inside = trim_spec(drop_brackets(s.subrange(0, j)));
            if !ts_valid(inside) {
                None
            } else {
                let t1 = trim_spec(s.skip(j + 1));
                if !starts_with(t1, "EVE System"@) {
                    None
                } else {
                    let t2 = trim_spec(t1.skip("EVE System"@.len() as int));
                    if !starts_with(t2, ">"@) {
                        None
                    } else {
                        let t3 = trim_spec(t2.skip(1));
                        if !starts_with(t3, "Channel changed to Local"@) {
                            None
                        } else {
                            let t4 = trim_spec(t3.skip("Channel changed to Local"@.len() as int));
                            if !starts_with(t4, ":"@) {
                                None
                            } else {
                                let loc = trim_spec(t4.skip(1));
                                if loc.len() == 0 {
                                    None
                                } else {
                                    Some((ts_to_epoch(inside) * 1000, loc))
                                }
                            }
                        }
                    }
                }
            }
        },
    }
}

/// Remove leading byte-order marks, per [`drop_boms`].
fn drop_boms_chars(v: &Vec<char>) -> (r: Vec<char>)
    ensures
        r@ == drop_boms(v@),
{
    let n = v.len();
    proof {
        assert(v@.subrange(0, n as int) =~= v@);
    }
    let mut a: usize = 0;
    while a < n && v[a] == '\u{feff}'
        invariant
            a <= n,
            n == v.len(),
            drop_boms(v@) == drop_boms(v@.subrange(a as int, n as int)),
        decreases n - a,
    {
        assert(v@.subrange(a as int, n as int).drop_first() =~= v@.subrange(
            a + 1 as int,
            n as int,
        ));
        a += 1;
    }
    assert(drop_boms(v@) == v@.subrange(a as int, n as int));
    subrange_copy(v, a, n)
}

/// Parser for Local chat log lines.
pub struct ChatlogParser {}

impl ChatlogParser {
    /// The parser is stateless.
    pub fn new() -> (r: Self) {
        ChatlogParser {  }
    }

    /// Parse one line for a location change, per [`parse_location_spec`].
    pub fn parse_line(&self, line: &str) -> (r: Option<LocationChange>)
        ensures
            match (r, parse_location_spec(line@)) {
                (Some(c), Some(m)) => c.timestamp_ms as int == m.0 && c.location@ == m.1,
                (None, None) => true,
                _ => false,
            },
    {
        let lv = str_chars(line);
        let s = drop_boms_chars(&trim_chars(&lv));
        let ns = s.len();
        let rb = str_chars("]");
        let j = match find_sub(&s, &rb) {
            Some(j) => j,
            None => {
                return None;
            },
        };
        proof {
            lemma_find_sub_some(s@, rb@, 0, j as int);
            reveal_strlit("]");
            reveal_strlit(">");
            reveal_strlit(":");
        }
        let bracket_part = subrange_copy(&s, 0, j);
        let inside = trim_chars(&crate::parser::drop_brackets_chars(&bracket_part));
        let dt = match parse_timestamp(&inside) {
            Some(dt) => dt,
            None => {
                return None;
            },
        };
        proof {
            assert(dt == (DateTime {
                year: ts_year(inside@) as u32,
                month: ts_month(inside@) as u32,
                day: ts_day(inside@) as u32,
                hour: ts_hour(inside@) as u32,
                minute: ts_minute(inside@) as u32,
                second: ts_second(inside@) as u32,
            }));
        }
        let epoch = epoch_seconds(&dt);
        let after = subrange_copy(&s, j + 1, ns);
        proof {
            assert(after@ =~= s@.skip(j + 1));
        }
        let t1 = trim_chars(&after);
        let sys = str_chars("EVE System");
        if !starts_with_pat(&t1, &sys) {
            return None;
        }
        let n1 = t1.len();
        let t1r = subrange_copy(&t1, sys.len(), n1);
        proof {
            assert(t1r@ =~= t1@.skip("EVE System"@.len() as int));
        }
        let t2 = trim_chars(&t1r);
        let gt = str_chars(">");
        if !starts_with_pat(&t2, &gt) {
            return None;
        }
        let n2 = t2.len();
        let t2r = subrange_copy(&t2, 1, n2);
        proof {
            assert(t2r@ =~= t2@.skip(1));
        }
        let t3 = trim_chars(&t2r);
        let ch = str_chars("Channel changed to Local");
        if !starts_with_pat(&t3, &ch) {
            return None;
        }
        let n3 = t3.len();
        let t3r = subrange_copy(&t3, ch.len(), n3);
        proof {
            assert(t3r@ =~= t3@.skip("Channel changed to Local"@.len() as int));
        }
        let t4 = trim_chars(&t3r);
        let co = str_chars(":");
        if !starts_with_pat(&t4, &co) {
            return None;
        }
        let n4 = t4.len();
        let t4r = subrange_copy(&t4, 1, n4);
        proof {
            assert(t4r@ =~= t4@.skip(1));
        }
        let loc = trim_chars(&t4r);
        if loc.len() == 0 {
            return None;
        }
        Some(LocationChange { timestamp_ms: epoch * 1000, location: chars_to_string(&loc) })
    }

    /// Parse many lines, keeping the location changes in order.
    pub fn parse_lines(&self, lines: &Vec<String>) -> (r: Vec<LocationChange>)
        ensures
            r@.map_values(|c: LocationChange| (c.timestamp_ms as int, c.location@))
                == location_changes(lines@.map_values(|l: String| l@)),
    {
        let ghost lm = lines@.map_values(|l: String| l@);
        let mut r: Vec<LocationChange> = Vec::new();
        let mut i: usize = 0;
        let n = lines.len();
        proof {
            assert(lm.len() == n);
            assert(r@.map_values(|c: LocationChange| (c.timestamp_ms as int, c.location@))
                =~= location_changes(lm.subrange(0, 0)));
        }
        while i < n
            invariant
                i <= n,
                n == lines@.len(),
                lm == lines@.map_values(|l: String| l@),
                r@.map_values(|c: LocationChange| (c.timestamp_ms as int, c.location@))
                    == location_changes(lm.subrange(0, i as int)),
            decreases n - i,
        {
            let ghost r0 = r@;
            match self.parse_line(lines[i].as_str()) {
                Some(c) => {
                    r.push(c);
                },
                None => {},
            }
            proof {
                assert(lm.subrange(0, i + 1 as int).drop_last() =~= lm.subrange(0, i as int));
                assert(lm.subrange(0, i + 1 as int).last() == lm[i as int]);
                assert(lm[i as int] == lines@[i as int]@);
                assert(r@.map_values(|c: LocationChange| (c.timestamp_ms as int, c.location@))
                    =~= location_changes(lm.subrange(0, i + 1 as int)));
            }
            i += 1;
        }
        proof {
            assert(lm.subrange(0, n as int) =~= lm);
        }
        r
    }
}

/// The location changes named by a sequence of lines, in order.
pub open spec fn location_changes(lines: Seq<Seq<char>>) -> Seq<(int, Seq<char>)>
    decreases lines.len(),
{
    if lines.len() == 0 {
        Seq::empty()
    } else {
        let rest = location_changes(lines.drop_last());
        match parse_location_spec(lines.last()) {
            Some(c) => rest.push(c),
            None => rest,
        }
    }
}

/// One run from entry to exit; the exit is open while the character is
/// still inside.
#[derive(Clone, Debug)]
pub struct AbyssRun {
    /// Entry epoch milliseconds.
    pub entry_time_ms: u64,
    /// Exit epoch milliseconds; `None` while still inside.
    pub exit_time_ms: Option<u64>,
    /// Where the character entered from, when known.
    pub origin_location: Option<String>,
}

/// Mathematical image of one run.
#[verifier::ext_equal]
pub struct RunImage {
    pub entry_time_ms: int,
    pub exit_time_ms: Option<int>,
    pub origin_location: Option<Seq<char>>,
}

/// The image of one run value.
pub open spec fn run_image(r: AbyssRun) -> RunImage {
    RunImage {
        entry_time_ms: r.entry_time_ms as int,
        exit_time_ms: match r.exit_time_ms {
            Some(t) => Some(t as int),
            None => None,
        },
        origin_location: match r.origin_location {
            Some(l) => Some(l@),
            None => None,
        },
    }
}

/// Fold the location changes from index `i` on into runs: an entry opens a
/// run (when none is open), any exit closes the open run and becomes the
/// last known location; an unclosed run is kept.
pub open spec fn detect_from(
    changes: Seq<(int, Seq<char>)>,
    i: int,
    current: Option<RunImage>,
    last: Option<Seq<char>>,
) -> Seq<RunImage>
    decreases changes.len() - i,
{
    if i < 0 || i >= changes.len() {
        match current {
            Some(r) => seq![r],
            None => Seq::empty(),
        }
    } else {
        let c = changes[i];
        if c.1 == "Unknown"@ {
            let cur2 = match current {
                None => Some(
                    RunImage { entry_time_ms: c.0, exit_time_ms: None, origin_location: last },
                ),
                Some(r) => Some(r),
            };
            detect_from(changes, i + 1, cur2, last)
        } else {
            match current {
                Some(r) => seq![
                    RunImage { exit_time_ms: Some(c.0), ..r },
                ] + detect_from(changes, i + 1, None, Some(c.1)),
                None => detect_from(changes, i + 1, None, Some(c.1)),
            }
        }
    }
}

/// The runs named by a sequence of location changes.
pub open spec fn detect_spec(changes: Seq<(int, Seq<char>)>) -> Seq<RunImage> {
    detect_from(changes, 0, None, None)
}

/// Detect runs from a sequence of location changes, per [`detect_spec`].
pub fn detect_abyss_runs(changes: &Vec<LocationChange>) -> (r: Vec<AbyssRun>)
    ensures
        r@.map_values(|x: AbyssRun| run_image(x)) == detect_spec(
            changes@.map_values(|c: LocationChange| (c.timestamp_ms as int, c.location@)),
        ),
{
    let ghost cm = changes@.map_values(|c: LocationChange| (c.timestamp_ms as int, c.location@));
    let mut runs: Vec<AbyssRun> = Vec::new();
    let mut current: Option<AbyssRun> = None;
    let mut last_known: Option<String> = None;
    let n = changes.len();
    proof {
        assert(cm.len() == n);
        assert(runs@.map_values(|x: AbyssRun| run_image(x)) =~= Seq::<RunImage>::empty());
    }
    let mut i: usize = 0;
    while i < n
        invariant
            i <= n,
            n == changes@.len(),
            cm == changes@.map_values(|c: LocationChange| (c.timestamp_ms as int, c.location@)),
            detect_spec(cm) == runs@.map_values(|x: AbyssRun| run_image(x)) + detect_from(
                cm,
                i as int,
                match current {
                    Some(r) => Some(run_image(r)),
                    None => None,
                },
                match last_known {
                    Some(l) => Some(l@),
                    None => None,
                },
            ),
        decreases n - i,
    {
        proof {
            let ce = changes@[i as int];
            assert(cm[i as int] == (ce.timestamp_ms as int, ce.location@));
        }
        let c = &changes[i];
        if c.is_abyss_entry() {
            if current.is_none() {
                let origin = match &last_known {
                    Some(l) => Some(l.clone()),
                    None => None,
                };
                current = Some(
                    AbyssRun {
                        entry_time_ms: c.timestamp_ms,
                        exit_time_ms: None,
                        origin_location: origin,
                    },
                );
            }
        } else {
            match current.take() {
                Some(run) => {
                    let ghost runs0 = runs@;
                    runs.push(
                        AbyssRun { exit_time_ms: Some(c.timestamp_ms), ..run },
                    );
                    proof {
                        assert(runs@.map_values(|x: AbyssRun| run_image(x)) =~= runs0.map_values(
                            |x: AbyssRun| run_image(x),
                        ) + seq![run_image(runs@.last())]);
                    }
                },
                None => {},
            }
            last_known = Some(c.location.clone());
        }
        i += 1;
    }
    match current {
        Some(run) => {
            let ghost runs0 = runs@;
            runs.push(run);
            proof {
                assert(runs@.map_values(|x: AbyssRun| run_image(x)) =~= runs0.map_values(
                    |x: AbyssRun| run_image(x),
                ) + seq![run_image(runs@.last())]);
            }
        },
        None => {
            proof {
                assert(runs@.map_values(|x: AbyssRun| run_image(x)) + Seq::<RunImage>::empty()
                    =~= runs@.map_values(|x: AbyssRun| run_image(x)));
            }
        },
    }
    runs
}

} // verus!
