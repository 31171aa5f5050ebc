//! Log discovery helpers: header parsing, character-id extraction from
//! file names, and selection of the right chat log. Directory walking and
//! file metadata are the caller's; everything on plain values is verified.

use vstd::prelude::*;

use crate::datetime::parse_timestamp;
use crate::datetime::ts_valid;
use crate::datetime::ts_day;
use crate::datetime::ts_hour;
use crate::datetime::ts_minute;
use crate::datetime::ts_month;
use crate::datetime::ts_second;
use crate::datetime::ts_year;
use crate::datetime::epoch_seconds;
use crate::datetime::DateTime;
use crate::numbers::all_digits;
use crate::numbers::digits_val;
use crate::numbers::parse_u64_digits;
use crate::parser::ts_to_epoch;
use crate::text::chars_to_string;
use crate::text::is_match_at;
use crate::text::lemma_rfind_sub_some;
use crate::text::match_at;
use crate::text::rfind_sub;
use crate::text::rfind_sub_in;
use crate::text::starts_with;
use crate::text::starts_with_pat;
use crate::text::str_chars;
use crate::text::subrange_copy;
use crate::text::trim_chars;
use crate::text::trim_spec;

verus! {

/// Which kind of log file a header came from.
#[derive(Clone, Copy, Debug, PartialEq, Eq, Structural)]
pub enum LogType {
    /// Combat log.
    Gamelog,
    /// Local chat log.
    Chatlog,
}

/// Header information of one log file, on plain values; the caller fills
/// in what it read from the file system.
#[derive(Clone, Debug)]
pub struct LogHeader {
    /// Character name from the `Listener:` field.
    pub character: String,
    /// Character id from the file name, when the name carries one.
    pub character_id: Option<u64>,
    /// Session start from the header, in epoch seconds.
    pub session_start_epoch: u64,
    /// Full path to the log file.
    pub path: String,
    /// File modification time, in epoch milliseconds.
    pub last_modified_ms: u64,
    /// File size in bytes.
    pub file_size: u64,
    pub log_type: LogType,
}

/// Multiplier of the polynomial name hash.
pub open spec fn hash_mul() -> int {
    1_099_511_628_211
}

/// A stable id for a character name: a polynomial hash of its characters,
/// folded modulo two to the sixty-fourth.
pub open spec fn name_id(s: Seq<char>) -> int
    decreases s.len(),
{
    if s.len() == 0 {
        14_695_981_039_346_656_037int % 0x1_0000_0000_0000_0000
    } else {
        (name_id(s.drop_last()) * hash_mul() + s.last() as u32) % 0x1_0000_0000_0000_0000int
    }
}

/// A stable character id derived from the character name alone, per
/// [`name_id`]; used when the log file name carries no id.
pub fn char_id_from_name(name: &str) -> (r: u64)
    ensures
        r as int == name_id(name@),
{
    let v = str_chars(name);
    let mut h: u64 = 14_695_981_039_346_656_037;
    let mut i: usize = 0;
    while i < v.len()
        invariant
            i <= v@.len(),
            v@ == name@,
            h as int == name_id(v@.subrange(0, i as int)),
        decreases v@.len() - i,
    {
        proof {
            assert(v@.subrange(0, i + 1 as int).drop_last() =~= v@.subrange(0, i as int));
        }
        h = h.wrapping_mul(1_099_511_628_211).wrapping_add(v[i] as u32 as u64);
        i += 1;
    }
    proof {
        assert(v@.subrange(0, v@.len() as int) =~= v@);
    }
    h
}

/// True when `s` ends with `pat`.
pub open spec fn ends_with(s: Seq<char>, pat: Seq<char>) -> bool {
    is_match_at(s, pat, s.len() - pat.len())
}

/// How many times `c` occurs in `s`.
pub open spec fn count_char(s: Seq<char>, c: char) -> int
    decreases s.len(),
{
    if s.len() == 0 {
        0
    } else {
        count_char(s.drop_last(), c) + (if s.last() == c {
            1int
        } else {
            0int
        })
    }
}

/// The character id in a chat-log file name: the digits after the last
/// underscore of a name of the shape `Local_<date>_<time>_<id>.txt` —
/// at least three underscores after the `Local` prefix.
pub open spec fn filename_char_id(f: Seq<char>) -> Option<int> {
    let name = if ends_with(f, ".txt"@) {
        f.take(f.len() - 4)
    } else {
        f
    };
    if starts_with(name, "Local_"@) && count_char(name, '_') >= 3 {
        match rfind_sub(name, "_"@) {
            Some(u) => {
                let tail = name.skip(u + 1);
                if tail.len() > 0 && all_digits(tail) && digits_val(tail) <= u64::MAX {
                    Some(digits_val(tail))
                } else {
                    None
                }
            },
            None => None,
        }
    } else {
        None
    }
}

/// Read the character id out of a log file name, per [`filename_char_id`].
pub fn extract_character_id_from_filename(filename: &str) -> (r: Option<u64>)
    ensures
        match r {
            Some(id) => filename_char_id(filename@) == Some(id as int),
            None => filename_char_id(filename@) is None,
        },
{
    let f = str_chars(filename);
    let txt = str_chars(".txt");
    let nf = f.len();
    proof {
        reveal_strlit(".txt");
        reveal_strlit("_");
    }
    let name: Vec<char> = if f.len() >= 4 && match_at(&f, &txt, nf - 4) {
        let x = subrange_copy(&f, 0, nf - 4);
        proof {
            assert(x@ =~= f@.take(f@.len() - 4));
        }
        x
    } else {
        proof {
            if f@.len() >= 4 {
                assert(!ends_with(f@, ".txt"@));
            }
        }
        let x = subrange_copy(&f, 0, nf);
        proof {
            assert(x@ =~= f@);
        }
        x
    };
    let prefix = str_chars("Local_");
    if !starts_with_pat(&name, &prefix) {
        return None;
    }
    let us = str_chars("_");
    let mut cnt: u64 = 0;
    let mut i: usize = 0;
    let nn = name.len();
    proof {
        assert(name@.subrange(0, 0) =~= Seq::<char>::empty());
    }
    while i < nn
        invariant
            i <= nn,
            nn == name@.len(),
            cnt <= i,
            cnt as int == count_char(name@.subrange(0, i as int), '_'),
        decreases nn - i,
    {
        proof {
            assert(name@.subrange(0, i + 1 as int).drop_last() =~= name@.subrange(0, i as int));
        }
        if name[i] == '_' {
            cnt = cnt + 1;
        }
        i += 1;
    }
    proof {
        assert(name@.subrange(0, nn as int) =~= name@);
    }
    if cnt < 3 {
        return None;
    }
    let u = match rfind_sub_in(&name, &us) {
        Some(u) => u,
        None => {
            return None;
        },
    };
    proof {
        lemma_rfind_sub_some(name@, us@, name@.len() - us@.len(), u as int);
    }
    let tail = subrange_copy(&name, u + 1, nn);
    proof {
        assert(tail@ =~= name@.skip(u + 1));
    }
    parse_u64_digits(&tail)
}

/// The sibling chat-log directory of a game-log directory: the last path
/// segment replaced by `Chatlogs`.
pub open spec fn chatlog_dir_of(dir: Seq<char>) -> Seq<char> {
    match rfind_sub(dir, "/"@) {
        Some(p) => dir.take(p) + "/Chatlogs"@,
        None => dir + "/../Chatlogs"@,
    }
}

/// Derive the chat-log directory, per [`chatlog_dir_of`].
pub fn derive_chatlog_dir(gamelog_dir: &str) -> (r: String)
    ensures
        r@ == chatlog_dir_of(gamelog_dir@),
{
    let d = str_chars(gamelog_dir);
    let slash = str_chars("/");
    match rfind_sub_in(&d, &slash) {
        Some(p) => {
            proof {
                lemma_rfind_sub_some(d@, slash@, d@.len() - slash@.len(), p as int);
            }
            let mut head = subrange_copy(&d, 0, p);
            proof {
                assert(head@ =~= d@.take(p as int));
            }
            crate::text::append_chars(&mut head, &str_chars("/Chatlogs"));
            chars_to_string(&head)
        },
        None => {
            let mut head = subrange_copy(&d, 0, d.len());
            proof {
                assert(head@ =~= d@);
            }
            crate::text::append_chars(&mut head, &str_chars("/../Chatlogs"));
            chars_to_string(&head)
        },
    }
}

/// The `Listener:` value in the first lines of a log file, if any: the
/// first line whose trimmed text starts with the field name, its value
/// trimmed. Only the first twenty lines count.
pub open spec fn listener_of(lines: Seq<Seq<char>>, i: int) -> Option<Seq<char>>
    decreases lines.len() - i,
{
    if i < 0 || i >= lines.len() || i >= 20 {
        None
    } else {
        let t = trim_spec(lines[i]);
        if starts_with(t, "Listener:"@) {
            Some(trim_spec(t.skip("Listener:"@.len() as int)))
        } else {
            listener_of(lines, i + 1)
        }
    }
}

/// The header's session start, if any: the first of the first twenty lines
/// whose trimmed text starts with `Session Started:` or `Session started:`
/// followed by a valid timestamp, in epoch seconds.
pub open spec fn session_start_of(lines: Seq<Seq<char>>, i: int) -> Option<int>
    decreases lines.len() - i,
{
    if i < 0 || i >= lines.len() || i >= 20 {
        None
    } else {
        let t = trim_spec(lines[i]);
        let rest = if starts_with(t, "Session Started:"@) {
            Some(trim_spec(t.skip("Session Started:"@.len() as int)))
        } else if starts_with(t, "Session started:"@) {
            Some(trim_spec(t.skip("Session started:"@.len() as int)))
        } else {
            None
        };
        match rest {
            Some(ts) => if ts_valid(ts) {
                Some(ts_to_epoch(ts))
            } else {
                session_start_of(lines, i + 1)
            },
            None => session_start_of(lines, i + 1),
        }
    }
}

/// Find the `Listener:` field, per [`listener_of`].
pub fn find_listener(lines: &Vec<String>) -> (r: Option<String>)
    ensures
        match r {
            Some(c) => listener_of(lines@.map_values(|l: String| l@), 0) == Some(c@),
            None => listener_of(lines@.map_values(|l: String| l@), 0) is None,
        },
{
    let ghost lm = lines@.map_values(|l: String| l@);
    let pat = str_chars("Listener:");
    let n = lines.len();
    proof {
        assert(lm.len() == n);
    }
    let mut i: usize = 0;
    while i < n && i < 20
        invariant
            i <= n,
            n == lines@.len(),
            lm == lines@.map_values(|l: String| l@),
            pat@ == "Listener:"@,
            listener_of(lm, 0) == listener_of(lm, i as int),
        decreases n - i,
    {
        proof {
            assert(lm[i as int] == lines@[i as int]@);
        }
        let lv = str_chars(lines[i].as_str());
        let t = trim_chars(&lv);
        if starts_with_pat(&t, &pat) {
            let nt = t.len();
            let rest = subrange_copy(&t, pat.len(), nt);
            proof {
                assert(rest@ =~= t@.skip("Listener:"@.len() as int));
            }
            return Some(chars_to_string(&trim_chars(&rest)));
        }
        i += 1;
    }
    None
}

/// Find the session start, per [`session_start_of`].
pub fn find_session_start(lines: &Vec<String>) -> (r: Option<u64>)
    ensures
        match r {
            Some(e) => session_start_of(lines@.map_values(|l: String| l@), 0) == Some(e as int),
            None => session_start_of(lines@.map_values(|l: String| l@), 0) is None,
        },
{
    let ghost lm = lines@.map_values(|l: String| l@);
    let pat_upper = str_chars("Session Started:");
    let pat_lower = str_chars("Session started:");
    let n = lines.len();
    proof {
        assert(lm.len() == n);
    }
    let mut i: usize = 0;
    while i < n && i < 20
        invariant
            i <= n,
            n == lines@.len(),
            lm == lines@.map_values(|l: String| l@),
            pat_upper@ == "Session Started:"@,
            pat_lower@ == "Session started:"@,
            session_start_of(lm, 0) == session_start_of(lm, i as int),
        decreases n - i,
    {
        proof {
            assert(lm[i as int] == lines@[i as int]@);
        }
        let lv = str_chars(lines[i].as_str());
        let t = trim_chars(&lv);
        let nt = t.len();
        let rest: Option<Vec<char>> = if starts_with_pat(&t, &pat_upper) {
            let x = subrange_copy(&t, pat_upper.len(), nt);
            proof {
                assert(x@ =~= t@.skip("Session Started:"@.len() as int));
            }
            Some(trim_chars(&x))
        } else if starts_with_pat(&t, &pat_lower) {
            let x = subrange_copy(&t, pat_lower.len(), nt);
            proof {
                assert(x@ =~= t@.skip("Session started:"@.len() as int));
            }
            Some(trim_chars(&x))
        } else {
            None
        };
        match rest {
            Some(ts) => {
                match parse_timestamp(&ts) {
                    Some(dt) => {
                        proof {
                            assert(dt == (DateTime {
                                year: ts_year(ts@) as u32,
                                month: ts_month(ts@) as u32,
                                day: ts_day(ts@) as u32,
                                hour: ts_hour(ts@) as u32,
                                minute: ts_minute(ts@) as u32,
                                second: ts_second(ts@) as u32,
                            }));
                        }
                        return Some(epoch_seconds(&dt));
                    },
                    None => {},
                }
            },
            None => {},
        }
        i += 1;
    }
    None
}

/// Whether a header belongs to the character with the given id.
pub open spec fn id_matches(h: LogHeader, id: int) -> bool {
    match h.character_id {
        Some(x) => x == id,
        None => false,
    }
}

/// The most recent Local chat log for a character id: among the scanned
/// headers with that id, one with the latest session start.
pub fn find_local_chatlog(headers: &Vec<LogHeader>, character_id: u64) -> (r: Option<String>)
    ensures
        match r {
            Some(p) => exists|i: int|
                0 <= i < headers@.len() && id_matches(#[trigger] headers@[i], character_id as int)
                    && p@ == headers@[i].path@ && forall|j: int|
                    0 <= j < headers@.len() && id_matches(#[trigger] headers@[j], character_id as int)
                        ==> headers@[j].session_start_epoch <= headers@[i].session_start_epoch,
            None => forall|i: int|
                0 <= i < headers@.len() ==> !id_matches(#[trigger] headers@[i], character_id as int),
        },
{
    let n = headers.len();
    let mut best: Option<usize> = None;
    let mut i: usize = 0;
    while i < n
        invariant
            i <= n,
            n == headers@.len(),
            match best {
                Some(b) => b < n && id_matches(headers@[b as int], character_id as int) && forall|
                    j: int,
                |
                    0 <= j < i && id_matches(#[trigger] headers@[j], character_id as int)
                        ==> headers@[j].session_start_epoch <= headers@[b as int].session_start_epoch,
                None => forall|j: int|
                    0 <= j < i ==> !id_matches(#[trigger] headers@[j], character_id as int),
            },
        decreases n - i,
    {
        let matches_id = match headers[i].character_id {
            Some(x) => x == character_id,
            None => false,
        };
        if matches_id {
            best = match best {
                Some(b) => {
                    if headers[i].session_start_epoch > headers[b].session_start_epoch {
                        Some(i)
                    } else {
                        Some(b)
                    }
                },
                None => Some(i),
            };
        }
        i += 1;
    }
    match best {
        Some(b) => Some(headers[b].path.clone()),
        None => None,
    }
}

/// The most recent Local chat log for a character name.
pub fn find_local_chatlog_by_name(headers: &Vec<LogHeader>, character_name: &str) -> (r: Option<
    String,
>)
    ensures
        match r {
            Some(p) => exists|i: int|
                0 <= i < headers@.len() && (#[trigger] headers@[i]).character@ == character_name@
                    && p@ == headers@[i].path@ && forall|j: int|
                    0 <= j < headers@.len() && (#[trigger] headers@[j]).character@
                        == character_name@ ==> headers@[j].session_start_epoch
                        <= headers@[i].session_start_epoch,
            None => forall|i: int|
                0 <= i < headers@.len() ==> (#[trigger] headers@[i]).character@ != character_name@,
        },
{
    let n = headers.len();
    let name = character_name.to_owned();
    let mut best: Option<usize> = None;
    let mut i: usize = 0;
    while i < n
        invariant
            i <= n,
            n == headers@.len(),
            name@ == character_name@,
            match best {
                Some(b) => b < n && headers@[b as int].character@ == character_name@ && forall|
                    j: int,
                |
                    0 <= j < i && (#[trigger] headers@[j]).character@ == character_name@
                        ==> headers@[j].session_start_epoch <= headers@[b as int].session_start_epoch,
                None => forall|j: int|
                    0 <= j < i ==> (#[trigger] headers@[j]).character@ != character_name@,
            },
        decreases n - i,
    {
        if headers[i].character == name {
            best = match best {
                Some(b) => {
                    if headers[i].session_start_epoch > headers[b].session_start_epoch {
                        Some(i)
                    } else {
                        Some(b)
                    }
                },
                None => Some(i),
            };
        }
        i += 1;
    }
    match best {
        Some(b) => Some(headers[b].path.clone()),
        None => None,
    }
}

} // verus!
