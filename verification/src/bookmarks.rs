//! Bookmarks and runs: manual and auto-detected markers grouped into runs
//! per character. Times are offsets in milliseconds, as everywhere else.

use vstd::multiset::Multiset;
use vstd::prelude::*;

verus! {

/// Type of bookmark.
#[derive(Clone, Copy, Debug, PartialEq, Eq, Structural)]
pub enum BookmarkType {
    /// Auto-detected run start.
    RunStart,
    /// Auto-detected run end.
    RunEnd,
    /// Manual room start marker.
    RoomStart,
    /// Manual room end marker.
    RoomEnd,
    /// Generic manual highlight.
    Highlight,
}

impl BookmarkType {
    /// True for the auto-detected bookmark types.
    pub fn is_auto(&self) -> (r: bool)
        ensures
            r == (*self == BookmarkType::RunStart || *self == BookmarkType::RunEnd),
    {
        *self == BookmarkType::RunStart || *self == BookmarkType::RunEnd
    }

    /// True for the manual bookmark types.
    pub fn is_manual(&self) -> (r: bool)
        ensures
            r == !(*self == BookmarkType::RunStart || *self == BookmarkType::RunEnd),
    {
        !self.is_auto()
    }
}

/// A bookmark marking a point in time during a run.
#[derive(Clone, Debug)]
pub struct Bookmark {
    /// Unique within the owning run.
    pub id: u64,
    /// The owning run.
    pub run_id: u64,
    /// Offset in milliseconds.
    pub timestamp_ms: u64,
    pub bookmark_type: BookmarkType,
    /// Optional user-provided label.
    pub label: Option<String>,
}

/// State of the room-marker toggle.
#[derive(Clone, Copy, Debug, PartialEq, Eq, Structural)]
pub enum RoomMarkerState {
    /// No active room marker.
    Idle,
    /// Room marker started, waiting for its end.
    InRoom,
}

/// One run, from entry to exit.
#[derive(Clone, Debug)]
pub struct Run {
    pub id: u64,
    pub character: String,
    pub character_id: u64,
    pub gamelog_path: String,
    pub chatlog_path: Option<String>,
    pub start_time_ms: u64,
    /// `None` while the run is still in progress.
    pub end_time_ms: Option<u64>,
    /// Where the character entered from, when known.
    pub origin_location: Option<String>,
    pub bookmarks: Vec<Bookmark>,
    pub room_marker_state: RoomMarkerState,
    pub room_marker_start_ms: Option<u64>,
}

impl Run {
    /// A new, in-progress run with no bookmarks.
    pub fn new(
        id: u64,
        character: String,
        character_id: u64,
        gamelog_path: String,
        chatlog_path: Option<String>,
        start_time_ms: u64,
        origin_location: Option<String>,
    ) -> (r: Run)
        ensures
            r.id == id,
            r.character == character,
            r.character_id == character_id,
            r.gamelog_path == gamelog_path,
            r.chatlog_path == chatlog_path,
            r.start_time_ms == start_time_ms,
            r.end_time_ms is None,
            r.origin_location == origin_location,
            r.bookmarks@ == Seq::<Bookmark>::empty(),
            r.room_marker_state == RoomMarkerState::Idle,
            r.room_marker_start_ms is None,
    {
        let r = Run {
            id,
            character,
            character_id,
            gamelog_path,
            chatlog_path,
            start_time_ms,
            end_time_ms: None,
            origin_location,
            bookmarks: Vec::new(),
            room_marker_state: RoomMarkerState::Idle,
            room_marker_start_ms: None,
        };
        proof {
            assert(r.bookmarks@ =~= Seq::<Bookmark>::empty());
        }
        r
    }

    /// Still in progress: no end time yet.
    pub fn is_in_progress(&self) -> (r: bool)
        ensures
            r == (self.end_time_ms is None),
    {
        self.end_time_ms.is_none()
    }

    /// End the run; an open room marker is auto-closed with a `RoomEnd`
    /// bookmark at the end time.
    pub fn end(&mut self, end_time_ms: u64)
        requires
            old(self).bookmarks@.len() + 1 <= u64::MAX,
        ensures
            final(self).end_time_ms == Some(end_time_ms),
            final(self).room_marker_state == RoomMarkerState::Idle,
            final(self).room_marker_start_ms is None,
            old(self).room_marker_state == RoomMarkerState::InRoom && old(
                self,
            ).room_marker_start_ms is Some ==> final(self).bookmarks@ == old(
                self,
            ).bookmarks@.push(
                Bookmark {
                    id: (old(self).bookmarks@.len() + 1) as u64,
                    run_id: old(self).id,
                    timestamp_ms: end_time_ms,
                    bookmark_type: BookmarkType::RoomEnd,
                    label: None,
                },
            ),
            !(old(self).room_marker_state == RoomMarkerState::InRoom && old(
                self,
            ).room_marker_start_ms is Some) ==> final(self).bookmarks@ == old(self).bookmarks@,
            *final(self) == (Run {
                bookmarks: final(self).bookmarks,
                end_time_ms: final(self).end_time_ms,
                room_marker_state: final(self).room_marker_state,
                room_marker_start_ms: final(self).room_marker_start_ms,
                ..*old(self)
            }),
    {
        self.end_time_ms = Some(end_time_ms);
        if self.room_marker_state == RoomMarkerState::InRoom && self.room_marker_start_ms.is_some()
        {
            self.room_marker_start_ms = None;
            self.add_bookmark(BookmarkType::RoomEnd, end_time_ms, None);
        }
        self.room_marker_state = RoomMarkerState::Idle;
        self.room_marker_start_ms = None;
    }

    /// Add a bookmark; its id is one past the current count.
    pub fn add_bookmark(
        &mut self,
        bookmark_type: BookmarkType,
        timestamp_ms: u64,
        label: Option<String>,
    ) -> (r: u64)
        requires
            old(self).bookmarks@.len() + 1 <= u64::MAX,
        ensures
            r == old(self).bookmarks@.len() + 1,
            final(self).bookmarks@ == old(self).bookmarks@.push(
                Bookmark {
                    id: r,
                    run_id: old(self).id,
                    timestamp_ms,
                    bookmark_type,
                    label,
                },
            ),
            *final(self) == (Run { bookmarks: final(self).bookmarks, ..*old(self) }),
    {
        let id = self.bookmarks.len() as u64 + 1;
        self.bookmarks.push(
            Bookmark { id, run_id: self.id, timestamp_ms, bookmark_type, label },
        );
        id
    }

    /// Toggle the room marker: start a room with a `RoomStart` bookmark, or
    /// close it with a `RoomEnd` one.
    pub fn toggle_room_marker(&mut self, timestamp_ms: u64) -> (r: (RoomMarkerState, Option<u64>))
        requires
            old(self).bookmarks@.len() + 1 <= u64::MAX,
        ensures
            old(self).room_marker_state == RoomMarkerState::Idle ==> {
                &&& r.0 == RoomMarkerState::InRoom
                &&& final(self).room_marker_state == RoomMarkerState::InRoom
                &&& final(self).room_marker_start_ms == Some(timestamp_ms)
                &&& final(self).bookmarks@ == old(self).bookmarks@.push(
                    Bookmark {
                        id: (old(self).bookmarks@.len() + 1) as u64,
                        run_id: old(self).id,
                        timestamp_ms,
                        bookmark_type: BookmarkType::RoomStart,
                        label: None,
                    },
                )
            },
            old(self).room_marker_state == RoomMarkerState::InRoom ==> {
                &&& r.0 == RoomMarkerState::Idle
                &&& final(self).room_marker_state == RoomMarkerState::Idle
                &&& final(self).room_marker_start_ms is None
                &&& final(self).bookmarks@ == old(self).bookmarks@.push(
                    Bookmark {
                        id: (old(self).bookmarks@.len() + 1) as u64,
                        run_id: old(self).id,
                        timestamp_ms,
                        bookmark_type: BookmarkType::RoomEnd,
                        label: None,
                    },
                )
            },
            r.1 == Some((old(self).bookmarks@.len() + 1) as u64),
            *final(self) == (Run {
                bookmarks: final(self).bookmarks,
                room_marker_state: final(self).room_marker_state,
                room_marker_start_ms: final(self).room_marker_start_ms,
                ..*old(self)
            }),
    {
        if self.room_marker_state == RoomMarkerState::Idle {
            let id = self.add_bookmark(BookmarkType::RoomStart, timestamp_ms, None);
            self.room_marker_state = RoomMarkerState::InRoom;
            self.room_marker_start_ms = Some(timestamp_ms);
            (RoomMarkerState::InRoom, Some(id))
        } else {
            let id = self.add_bookmark(BookmarkType::RoomEnd, timestamp_ms, None);
            self.room_marker_state = RoomMarkerState::Idle;
            self.room_marker_start_ms = None;
            (RoomMarkerState::Idle, Some(id))
        }
    }

    /// Length of an ended run; `None` while in progress. Clamped at zero
    /// when the end lies before the start.
    pub fn duration(&self) -> (r: Option<u64>)
        ensures
            match self.end_time_ms {
                Some(e) => r == Some(
                    (if e >= self.start_time_ms {
                        e - self.start_time_ms
                    } else {
                        0
                    }) as u64,
                ),
                None => r is None,
            },
    {
        match self.end_time_ms {
            Some(e) => {
                if e >= self.start_time_ms {
                    Some(e - self.start_time_ms)
                } else {
                    Some(0)
                }
            },
            None => None,
        }
    }

    /// The run's bookmarks in timestamp order: the same bookmarks, sorted.
    pub fn bookmarks_sorted(&self) -> (r: Vec<Bookmark>)
        ensures
            r@.to_multiset() == self.bookmarks@.to_multiset(),
            forall|a: int, b: int|
                0 <= a < b < r@.len() ==> (#[trigger] r@[a]).timestamp_ms <= (
                #[trigger] r@[b]).timestamp_ms,
    {
        broadcast use vstd::multiset::group_multiset_axioms;

        let mut src: Vec<Bookmark> = clone_bookmarks(&self.bookmarks);
        let mut out: Vec<Bookmark> = Vec::new();
        proof {
            out@.to_multiset_ensures();
            vstd::multiset::lemma_multiset_empty_len(out@.to_multiset());
            assert(out@.to_multiset().add(src@.to_multiset()) =~= src@.to_multiset());
        }
        while src.len() > 0
            invariant
                out@.to_multiset().add(src@.to_multiset()) =~= self.bookmarks@.to_multiset(),
                forall|a: int, b: int|
                    0 <= a < b < out@.len() ==> (#[trigger] out@[a]).timestamp_ms <= (
                    #[trigger] out@[b]).timestamp_ms,
                forall|a: int, b: int|
                    0 <= a < out@.len() && 0 <= b < src@.len() ==> (
                    #[trigger] out@[a]).timestamp_ms <= (#[trigger] src@[b]).timestamp_ms,
            decreases src@.len(),
        {
            let n = src.len();
            let mut m: usize = 0;
            let mut i: usize = 1;
            while i < n
                invariant
                    n == src@.len(),
                    m < i <= n,
                    forall|j: int|
                        0 <= j < i ==> (#[trigger] src@[j]).timestamp_ms
                            >= src@[m as int].timestamp_ms,
                decreases n - i,
            {
                if src[i].timestamp_ms < src[m].timestamp_ms {
                    m = i;
                }
                i += 1;
            }
            let ghost vs0 = src@;
            let ghost out0 = out@;
            let x = src.remove(m);
            out.push(x);
            proof {
                out0.to_multiset_ensures();
                vs0.to_multiset_ensures();
                assert(out0.push(x).to_multiset() =~= out0.to_multiset().insert(x));
                assert(vs0.remove(m as int).to_multiset() =~= vs0.to_multiset().remove(
                    vs0[m as int],
                ));
                assert(vs0.to_multiset().count(x) > 0) by {
                    assert(vs0[m as int] == x);
                    assert(vs0.contains(x));
                }
                assert forall|y: Bookmark|
                    out@.to_multiset().add(src@.to_multiset()).count(y) == out0.to_multiset().add(
                        vs0.to_multiset(),
                    ).count(y) by {}
                assert(out@.to_multiset().add(src@.to_multiset()) =~= out0.to_multiset().add(
                    vs0.to_multiset(),
                ));
                assert(forall|b: int|
                    0 <= b < src@.len() ==> (#[trigger] src@[b]).timestamp_ms >= x.timestamp_ms);
            }
        }
        proof {
            src@.to_multiset_ensures();
            vstd::multiset::lemma_multiset_empty_len(src@.to_multiset());
            assert(src@.to_multiset() =~= Multiset::empty());
            assert(out@.to_multiset().add(src@.to_multiset()) =~= out@.to_multiset());
        }
        out
    }
}

/// Field-by-field copy of one bookmark.
fn clone_bookmark(b: &Bookmark) -> (r: Bookmark)
    ensures
        r == *b,
{
    Bookmark {
        id: b.id,
        run_id: b.run_id,
        timestamp_ms: b.timestamp_ms,
        bookmark_type: b.bookmark_type,
        label: match &b.label {
            Some(l) => Some(l.clone()),
            None => None,
        },
    }
}

/// Copy of a bookmark list.
fn clone_bookmarks(v: &Vec<Bookmark>) -> (r: Vec<Bookmark>)
    ensures
        r@ == v@,
{
    let mut r: Vec<Bookmark> = Vec::new();
    let mut i: usize = 0;
    while i < v.len()
        invariant
            i <= v@.len(),
            r@ == v@.subrange(0, i as int),
        decreases v@.len() - i,
    {
        r.push(clone_bookmark(&v[i]));
        assert(v@.subrange(0, i + 1 as int) =~= v@.subrange(0, i as int).push(v@[i as int]));
        i += 1;
    }
    assert(v@.subrange(0, v@.len() as int) =~= v@);
    r
}

/// Index of the most recent in-progress run, searching newest first.
pub open spec fn active_run_idx(runs: Seq<Run>) -> Option<int>
    decreases runs.len(),
{
    if runs.len() == 0 {
        None
    } else if runs.last().end_time_ms is None {
        Some(runs.len() - 1)
    } else {
        active_run_idx(runs.drop_last())
    }
}

/// Index of the run with the given id, oldest first.
pub open spec fn run_idx(runs: Seq<Run>, run_id: int) -> Option<int>
    decreases runs.len(),
{
    if runs.len() == 0 {
        None
    } else if runs[0].id == run_id {
        Some(0)
    } else {
        match run_idx(runs.drop_first(), run_id) {
            Some(i) => Some(i + 1),
            None => None,
        }
    }
}

/// The first matching index is what [`run_idx`] names.
proof fn lemma_run_idx_first(runs: Seq<Run>, id: int, i: int)
    requires
        0 <= i < runs.len(),
        runs[i].id == id,
        forall|j: int| 0 <= j < i ==> (#[trigger] runs[j]).id != id,
    ensures
        run_idx(runs, id) == Some(i),
    decreases runs.len(),
{
    if i > 0 {
        lemma_run_idx_first(runs.drop_first(), id, i - 1);
        assert(forall|j: int|
            0 <= j < runs.drop_first().len() ==> #[trigger] runs.drop_first()[j] == runs[j + 1]);
    }
}

/// No matching run, no index.
proof fn lemma_run_idx_none(runs: Seq<Run>, id: int)
    requires
        forall|j: int| 0 <= j < runs.len() ==> (#[trigger] runs[j]).id != id,
    ensures
        run_idx(runs, id) is None,
    decreases runs.len(),
{
    if runs.len() > 0 {
        lemma_run_idx_none(runs.drop_first(), id);
        assert(forall|j: int|
            0 <= j < runs.drop_first().len() ==> #[trigger] runs.drop_first()[j] == runs[j + 1]);
    }
}

/// All runs of one character, with the next run id to assign.
#[derive(Debug)]
pub struct CharacterBookmarks {
    pub character_id: u64,
    pub character_name: String,
    pub runs: Vec<Run>,
    /// The next run id to assign.
    pub next_run_id: u64,
}

impl CharacterBookmarks {
    /// The next run id this character will assign.
    pub open spec fn next_id(self) -> int {
        self.next_run_id as int
    }

    /// A character with no runs; run ids start at one.
    pub fn new(character_id: u64, character_name: String) -> (r: Self)
        ensures
            r.character_id == character_id,
            r.character_name == character_name,
            r.runs@ == Seq::<Run>::empty(),
            r.next_id() == 1,
    {
        let r = CharacterBookmarks { character_id, character_name, runs: Vec::new(), next_run_id: 1 };
        proof {
            assert(r.runs@ =~= Seq::<Run>::empty());
        }
        r
    }

    /// Start a new run under the next id.
    pub fn start_run(
        &mut self,
        gamelog_path: String,
        chatlog_path: Option<String>,
        start_time_ms: u64,
        origin_location: Option<String>,
    ) -> (r: u64)
        requires
            old(self).next_id() + 1 <= u64::MAX,
        ensures
            r as int == old(self).next_id(),
            final(self).next_id() == old(self).next_id() + 1,
            final(self).runs@.len() == old(self).runs@.len() + 1,
            final(self).runs@.drop_last() == old(self).runs@,
            ({
                let run = final(self).runs@.last();
                &&& run.id == r
                &&& run.character == old(self).character_name
                &&& run.character_id == old(self).character_id
                &&& run.gamelog_path == gamelog_path
                &&& run.chatlog_path == chatlog_path
                &&& run.start_time_ms == start_time_ms
                &&& run.end_time_ms is None
                &&& run.origin_location == origin_location
                &&& run.bookmarks@ == Seq::<Bookmark>::empty()
            }),
            final(self).character_id == old(self).character_id,
            final(self).character_name == old(self).character_name,
    {
        let id = self.next_run_id;
        self.next_run_id = self.next_run_id + 1;
        let run = Run::new(
            id,
            self.character_name.clone(),
            self.character_id,
            gamelog_path,
            chatlog_path,
            start_time_ms,
            origin_location,
        );
        self.runs.push(run);
        proof {
            assert(final(self).runs@.drop_last() =~= old(self).runs@);
        }
        id
    }

    /// The most recent in-progress run, read-only.
    pub fn active_run(&self) -> (r: Option<&Run>)
        ensures
            match r {
                Some(run) => active_run_idx(self.runs@) is Some && *run
                    == self.runs@[active_run_idx(self.runs@).unwrap()],
                None => active_run_idx(self.runs@) is None,
            },
    {
        let n = self.runs.len();
        proof {
            assert(self.runs@.subrange(0, n as int) =~= self.runs@);
        }
        let mut i = n;
        while i > 0
            invariant
                i <= n,
                n == self.runs@.len(),
                active_run_idx(self.runs@) == active_run_idx(self.runs@.subrange(0, i as int)),
            decreases i,
        {
            proof {
                assert(self.runs@.subrange(0, i as int).drop_last() =~= self.runs@.subrange(
                    0,
                    i - 1 as int,
                ));
                assert(self.runs@.subrange(0, i as int).last() == self.runs@[i - 1]);
            }
            if self.runs[i - 1].end_time_ms.is_none() {
                return Some(&self.runs[i - 1]);
            }
            i -= 1;
        }
        proof {
            assert(self.runs@.subrange(0, 0) =~= Seq::<Run>::empty());
        }
        None
    }

    /// The most recent in-progress run, for mutation.
    pub fn active_run_mut(&mut self) -> (r: Option<&mut Run>)
        ensures
            match r {
                Some(run) => {
                    &&& active_run_idx(old(self).runs@) is Some
                    &&& *run == old(self).runs@[active_run_idx(old(self).runs@).unwrap()]
                    &&& final(self).runs@ == old(self).runs@.update(
                        active_run_idx(old(self).runs@).unwrap(),
                        *final(run),
                    )
                    &&& final(self).character_id == old(self).character_id
                    &&& final(self).character_name == old(self).character_name
                    &&& final(self).next_id() == old(self).next_id()
                },
                None => active_run_idx(old(self).runs@) is None && *final(self) == *old(self),
            },
    {
        let n = self.runs.len();
        proof {
            assert(self.runs@.subrange(0, n as int) =~= self.runs@);
        }
        let mut i = n;
        while i > 0
            invariant
                i <= n,
                n == self.runs@.len(),
                *self == *old(self),
                active_run_idx(self.runs@) == active_run_idx(self.runs@.subrange(0, i as int)),
            decreases i,
        {
            proof {
                assert(self.runs@.subrange(0, i as int).drop_last() =~= self.runs@.subrange(
                    0,
                    i - 1 as int,
                ));
                assert(self.runs@.subrange(0, i as int).last() == self.runs@[i - 1]);
            }
            if self.runs[i - 1].end_time_ms.is_none() {
                return Some(&mut self.runs[i - 1]);
            }
            i -= 1;
        }
        proof {
            assert(self.runs@.subrange(0, 0) =~= Seq::<Run>::empty());
        }
        None
    }

    /// The run with the given id, read-only.
    pub fn run(&self, run_id: u64) -> (r: Option<&Run>)
        ensures
            match r {
                Some(run) => run_idx(self.runs@, run_id as int) is Some && *run
                    == self.runs@[run_idx(self.runs@, run_id as int).unwrap()],
                None => run_idx(self.runs@, run_id as int) is None,
            },
    {
        let n = self.runs.len();
        let mut i: usize = 0;
        while i < n
            invariant
                i <= n,
                n == self.runs@.len(),
                forall|j: int| 0 <= j < i ==> (#[trigger] self.runs@[j]).id != run_id,
            decreases n - i,
        {
            if self.runs[i].id == run_id {
                proof {
                    lemma_run_idx_first(self.runs@, run_id as int, i as int);
                }
                return Some(&self.runs[i]);
            }
            i += 1;
        }
        proof {
            lemma_run_idx_none(self.runs@, run_id as int);
        }
        None
    }

    /// The run with the given id, for mutation.
    pub fn run_mut(&mut self, run_id: u64) -> (r: Option<&mut Run>)
        ensures
            match r {
                Some(run) => {
                    &&& run_idx(old(self).runs@, run_id as int) is Some
                    &&& *run == old(self).runs@[run_idx(old(self).runs@, run_id as int).unwrap()]
                    &&& final(self).runs@ == old(self).runs@.update(
                        run_idx(old(self).runs@, run_id as int).unwrap(),
                        *final(run),
                    )
                    &&& final(self).character_id == old(self).character_id
                    &&& final(self).character_name == old(self).character_name
                    &&& final(self).next_id() == old(self).next_id()
                },
                None => run_idx(old(self).runs@, run_id as int) is None && *final(self) == *old(
                    self,
                ),
            },
    {
        let n = self.runs.len();
        let mut i: usize = 0;
        while i < n
            invariant
                i <= n,
                n == self.runs@.len(),
                *self == *old(self),
                forall|j: int| 0 <= j < i ==> (#[trigger] self.runs@[j]).id != run_id,
            decreases n - i,
        {
            if self.runs[i].id == run_id {
                proof {
                    lemma_run_idx_first(self.runs@, run_id as int, i as int);
                }
                return Some(&mut self.runs[i]);
            }
            i += 1;
        }
        proof {
            lemma_run_idx_none(self.runs@, run_id as int);
        }
        None
    }

    /// The indices of runs overlapping the closed time range.
    pub fn runs_in_range(&self, start_ms: u64, end_ms: u64) -> (r: Vec<usize>)
        ensures
            forall|j: int|
                0 <= j < r@.len() ==> (#[trigger] r@[j]) < self.runs@.len() && overlaps(
                    self.runs@[r@[j] as int],
                    start_ms as int,
                    end_ms as int,
                ),
            forall|i: int|
                0 <= i < self.runs@.len() && overlaps(
                    #[trigger] self.runs@[i],
                    start_ms as int,
                    end_ms as int,
                ) ==> r@.contains(i as usize),
            forall|a: int, b: int| 0 <= a < b < r@.len() ==> r@[a] < r@[b],
    {
        let n = self.runs.len();
        let mut r: Vec<usize> = Vec::new();
        let mut i: usize = 0;
        while i < n
            invariant
                i <= n,
                n == self.runs@.len(),
                forall|j: int|
                    0 <= j < r@.len() ==> (#[trigger] r@[j]) < self.runs@.len() && overlaps(
                        self.runs@[r@[j] as int],
                        start_ms as int,
                        end_ms as int,
                    ),
                forall|i2: int|
                    0 <= i2 < i && overlaps(
                        #[trigger] self.runs@[i2],
                        start_ms as int,
                        end_ms as int,
                    ) ==> r@.contains(i2 as usize),
                forall|a: int, b: int| 0 <= a < b < r@.len() ==> r@[a] < r@[b],
                forall|a: int| 0 <= a < r@.len() ==> (#[trigger] r@[a]) < i,
            decreases n - i,
        {
            let run = &self.runs[i];
            let run_end_ok = match run.end_time_ms {
                Some(e) => e >= start_ms,
                None => true,
            };
            if run.start_time_ms <= end_ms && run_end_ok {
                let ghost r0 = r@;
                r.push(i);
                proof {
                    assert(r@[r@.len() - 1] == i);
                    assert forall|i2: int| #[trigger]
                        r0.contains(i2 as usize) implies r@.contains(i2 as usize) by {
                        let j = choose|j: int| 0 <= j < r0.len() && r0[j] == i2 as usize;
                        assert(r@[j] == i2 as usize);
                    }
                }
            }
            i += 1;
        }
        r
    }
}

/// A run overlaps a closed time range: it starts before the range ends and
/// does not end before the range starts.
pub open spec fn overlaps(run: Run, start_ms: int, end_ms: int) -> bool {
    &&& run.start_time_ms <= end_ms
    &&& match run.end_time_ms {
        Some(e) => e >= start_ms,
        None => true,
    }
}

} // verus!
