//! Inline bookmarks: bookmark lines written straight into a game log in the
//! log's own line format, so they travel with the file and replay can see
//! them. Building the line is verified; appending it to a file is the
//! caller's.

use vstd::prelude::*;

use crate::datetime::ts_text;
use crate::datetime::wf_date;
use crate::datetime::DateTime;
use crate::text::append_chars;
use crate::text::chars_to_string;
use crate::text::seq_eq;
use crate::text::str_chars;
use crate::text::trim_chars;
use crate::text::trim_spec;

verus! {

/// Types of bookmarks that can be placed in a game log.
#[derive(Clone, Copy, Debug, PartialEq, Eq, Structural)]
pub enum BookmarkType {
    /// A run started.
    RunStart,
    /// A run ended.
    RunEnd,
    /// A room timer started.
    RoomStart,
    /// A room timer ended.
    RoomEnd,
    /// A user-placed highlight.
    Highlight,
}

/// The log-file text of each bookmark type.
pub open spec fn bookmark_type_text(b: BookmarkType) -> Seq<char> {
    match b {
        BookmarkType::RunStart => "RUN_START"@,
        BookmarkType::RunEnd => "RUN_END"@,
        BookmarkType::RoomStart => "ROOM_START"@,
        BookmarkType::RoomEnd => "ROOM_END"@,
        BookmarkType::Highlight => "HIGHLIGHT"@,
    }
}

/// The bookmark type a trimmed text names, if any.
pub open spec fn bookmark_type_of(s: Seq<char>) -> Option<BookmarkType> {
    let t = trim_spec(s);
    if t == "RUN_START"@ {
        Some(BookmarkType::RunStart)
    } else if t == "RUN_END"@ {
        Some(BookmarkType::RunEnd)
    } else if t == "ROOM_START"@ {
        Some(BookmarkType::RoomStart)
    } else if t == "ROOM_END"@ {
        Some(BookmarkType::RoomEnd)
    } else if t == "HIGHLIGHT"@ {
        Some(BookmarkType::Highlight)
    } else {
        None
    }
}

impl BookmarkType {
    /// The text written into log files, per [`bookmark_type_text`].
    pub fn as_str(&self) -> (r: &'static str)
        ensures
            r@ == bookmark_type_text(*self),
    {
        match self {
            BookmarkType::RunStart => "RUN_START",
            BookmarkType::RunEnd => "RUN_END",
            BookmarkType::RoomStart => "ROOM_START",
            BookmarkType::RoomEnd => "ROOM_END",
            BookmarkType::Highlight => "HIGHLIGHT",
        }
    }

    /// Read a bookmark type back from text, per [`bookmark_type_of`].
    pub fn from_str(s: &str) -> (r: Option<BookmarkType>)
        ensures
            r == bookmark_type_of(s@),
    {
        let t = trim_chars(&str_chars(s));
        if seq_eq(&t, &str_chars("RUN_START")) {
            Some(BookmarkType::RunStart)
        } else if seq_eq(&t, &str_chars("RUN_END")) {
            Some(BookmarkType::RunEnd)
        } else if seq_eq(&t, &str_chars("ROOM_START")) {
            Some(BookmarkType::RoomStart)
        } else if seq_eq(&t, &str_chars("ROOM_END")) {
            Some(BookmarkType::RoomEnd)
        } else if seq_eq(&t, &str_chars("HIGHLIGHT")) {
            Some(BookmarkType::Highlight)
        } else {
            None
        }
    }
}

/// Law: reading a written bookmark type back yields the same type.
pub proof fn lemma_bookmark_type_round_trip(b: BookmarkType)
    ensures
        bookmark_type_of(bookmark_type_text(b)) == Some(b),
{
    reveal_strlit("RUN_START");
    reveal_strlit("RUN_END");
    reveal_strlit("ROOM_START");
    reveal_strlit("ROOM_END");
    reveal_strlit("HIGHLIGHT");
    assert(trim_spec(bookmark_type_text(b)) == bookmark_type_text(b));
}

/// A bookmark parsed back out of a game log.
#[derive(Clone, Debug)]
pub struct InlineBookmark {
    /// Epoch seconds of the bookmark line's timestamp.
    pub timestamp_secs: u64,
    pub bookmark_type: BookmarkType,
    /// Optional label, for highlights.
    pub label: Option<String>,
}

/// The exact line written into a game log for one bookmark.
pub open spec fn bookmark_line_text(
    dt: DateTime,
    b: BookmarkType,
    label: Option<Seq<char>>,
) -> Seq<char> {
    "[ "@ + ts_text(dt) + " ] (bookmark) "@ + bookmark_type_text(b) + (match label {
        Some(l) => ": "@ + l,
        None => Seq::<char>::empty(),
    }) + "\n"@
}

/// Build one bookmark line for the given wall-clock time, per
/// [`bookmark_line_text`]; the caller appends it to the log file.
pub fn format_bookmark_line(dt: &DateTime, bookmark_type: BookmarkType, label: Option<&str>) -> (r:
    String)
    requires
        wf_date(*dt),
    ensures
        r@ == bookmark_line_text(
            *dt,
            bookmark_type,
            match label {
                Some(l) => Some(l@),
                None => None,
            },
        ),
{
    let mut out: Vec<char> = Vec::new();
    append_chars(&mut out, &str_chars("[ "));
    append_chars(&mut out, &crate::datetime::format_timestamp(dt));
    append_chars(&mut out, &str_chars(" ] (bookmark) "));
    append_chars(&mut out, &str_chars(bookmark_type.as_str()));
    match label {
        Some(l) => {
            append_chars(&mut out, &str_chars(": "));
            append_chars(&mut out, &str_chars(l));
        },
        None => {},
    }
    append_chars(&mut out, &str_chars("\n"));
    proof {
        assert(out@ =~= bookmark_line_text(
            *dt,
            bookmark_type,
            match label {
                Some(l) => Some(l@),
                None => None,
            },
        ));
    }
    chars_to_string(&out)
}

} // verus!
