//! Deterministic replay: a k-way merge of per-character event streams by
//! timestamp, wrapped in a virtual-clock playback controller driven by
//! caller-provided wall-clock ticks.

use vstd::prelude::*;

use crate::model::CombatEvent;
use crate::model::EventModel;
use crate::parser::anchor_of;
use crate::parser::parse_line_spec;
use crate::parser::LineParser;

verus! {

/// What one merge step sees of a source.
#[verifier::ext_equal]
pub struct SourceModel {
    pub character: Seq<char>,
    pub lines: Seq<Seq<char>>,
    /// Next line index the parser will read.
    pub pos: int,
    pub anchor: Option<int>,
    /// The pre-fetched next event and its raw line, when one is left.
    pub pending: Option<(EventModel, Seq<char>)>,
}

/// What one source scan step yields.
#[verifier::ext_equal]
pub struct NextScan {
    pub event: Option<(EventModel, Seq<char>)>,
    pub anchor: Option<int>,
    pub pos: int,
}

/// Read lines forward from `pos` until one parses into an event or the
/// lines run out; the anchor evolves as the parser sees headers.
pub open spec fn scan_next(
    anchor: Option<int>,
    lines: Seq<Seq<char>>,
    pos: int,
    owner: Seq<char>,
) -> NextScan
    decreases lines.len() - pos,
{
    if pos < 0 || pos >= lines.len() {
        NextScan { event: None, anchor, pos: lines.len() as int }
    } else {
        let o = parse_line_spec(anchor, lines[pos], owner);
        match o.event {
            Some(m) => NextScan { event: Some((m, lines[pos])), anchor: o.anchor, pos: pos + 1 },
            None => scan_next(o.anchor, lines, pos + 1, owner),
        }
    }
}

/// The scan moves forward and stays within the lines.
pub proof fn lemma_scan_next_bounds(
    anchor: Option<int>,
    lines: Seq<Seq<char>>,
    pos: int,
    owner: Seq<char>,
)
    requires
        0 <= pos <= lines.len(),
    ensures
        ({
            let ns = scan_next(anchor, lines, pos, owner);
            &&& pos <= ns.pos <= lines.len()
            &&& ns.event is Some ==> ns.pos >= pos + 1
            &&& ns.event is None ==> ns.pos == lines.len()
        }),
    decreases lines.len() - pos,
{
    if pos < lines.len() {
        let o = parse_line_spec(anchor, lines[pos], owner);
        if o.event is None {
            lemma_scan_next_bounds(o.anchor, lines, pos + 1, owner);
        }
    }
}

/// One replay source: its lines in memory, a parser, and the pre-fetched
/// next event.
struct LogSource {
    character: String,
    lines: Vec<String>,
    pos: usize,
    parser: LineParser,
    pending: Option<(CombatEvent, String)>,
}

impl LogSource {
    /// The source's mathematical image.
    closed spec fn model(self) -> SourceModel {
        SourceModel {
            character: self.character@,
            lines: self.lines@.map_values(|l: String| l@),
            pos: self.pos as int,
            anchor: anchor_of(self.parser),
            pending: match self.pending {
                Some(p) => Some((p.0@, p.1@)),
                None => None,
            },
        }
    }

    /// Read forward until the next event is pre-fetched, per [`scan_next`].
    fn refill(&mut self)
        requires
            old(self).pending is None,
            old(self).pos <= old(self).lines@.len(),
        ensures
            ({
                let m0 = old(self).model();
                let ns = scan_next(m0.anchor, m0.lines, m0.pos, m0.character);
                final(self).model() == (SourceModel {
                    pos: ns.pos,
                    anchor: ns.anchor,
                    pending: ns.event,
                    ..m0
                })
            }),
            final(self).pos <= final(self).lines@.len(),
    {
        let ghost m0 = self.model();
        while self.pos < self.lines.len()
            invariant
                self.pending is None,
                self.pos <= self.lines@.len(),
                self.character == old(self).character,
                self.lines == old(self).lines,
                m0 == old(self).model(),
                self.model().lines == m0.lines,
                scan_next(m0.anchor, m0.lines, m0.pos, m0.character) == scan_next(
                    anchor_of(self.parser),
                    m0.lines,
                    self.pos as int,
                    m0.character,
                ),
            decreases self.lines@.len() - self.pos,
        {
            let ghost pre = anchor_of(self.parser);
            let r = self.parser.parse_line(self.lines[self.pos].as_str(), self.character.as_str());
            proof {
                assert(m0.lines[self.pos as int] == self.lines@[self.pos as int]@);
            }
            match r {
                Some(e) => {
                    let raw = self.lines[self.pos].clone();
                    self.pos = self.pos + 1;
                    self.pending = Some((e, raw));
                    proof {
                        let ns = scan_next(m0.anchor, m0.lines, m0.pos, m0.character);
                        assert(final(self).model() =~= (SourceModel {
                            pos: ns.pos,
                            anchor: ns.anchor,
                            pending: ns.event,
                            ..m0
                        }));
                    }
                    return ;
                },
                None => {
                    self.pos = self.pos + 1;
                },
            }
        }
        proof {
            let ns = scan_next(m0.anchor, m0.lines, m0.pos, m0.character);
            assert(final(self).model() =~= (SourceModel {
                pos: ns.pos,
                anchor: ns.anchor,
                pending: ns.event,
                ..m0
            }));
        }
    }
}

/// Index of the first source holding a pending event with the minimal
/// timestamp, searching from `i` on. Ties go to the earlier source.
pub open spec fn min_idx_from(m: Seq<SourceModel>, i: int) -> Option<int>
    decreases m.len() - i,
{
    if i < 0 || i >= m.len() {
        None
    } else {
        let rest = min_idx_from(m, i + 1);
        match m[i].pending {
            None => rest,
            Some(p) => match rest {
                None => Some(i),
                Some(j) => if 0 <= j < m.len() && m[j].pending is Some {
                    if p.0.timestamp_ms <= m[j].pending.unwrap().0.timestamp_ms {
                        Some(i)
                    } else {
                        Some(j)
                    }
                } else {
                    Some(i)
                },
            },
        }
    }
}

/// The minimal pending timestamp across sources, if any event is left.
pub open spec fn min_pending_ts(m: Seq<SourceModel>) -> Option<int> {
    match min_idx_from(m, 0) {
        Some(i) => if 0 <= i < m.len() && m[i].pending is Some {
            Some(m[i].pending.unwrap().0.timestamp_ms)
        } else {
            None
        },
        None => None,
    }
}

/// What a found minimum means.
pub proof fn lemma_min_idx(m: Seq<SourceModel>, i: int)
    requires
        0 <= i <= m.len(),
    ensures
        match min_idx_from(m, i) {
            Some(j) => {
                &&& i <= j < m.len()
                &&& m[j].pending is Some
                &&& forall|k: int|
                    i <= k < m.len() && (#[trigger] m[k]).pending is Some
                        ==> m[j].pending.unwrap().0.timestamp_ms
                        <= m[k].pending.unwrap().0.timestamp_ms
            },
            None => forall|k: int| i <= k < m.len() ==> (#[trigger] m[k]).pending is None,
        },
    decreases m.len() - i,
{
    if i < m.len() {
        lemma_min_idx(m, i + 1);
    }
}

/// How many lines and pending events a stream still holds.
pub open spec fn stream_measure(m: Seq<SourceModel>) -> int
    decreases m.len(),
{
    if m.len() == 0 {
        0
    } else {
        stream_measure(m.drop_last()) + (m.last().lines.len() - m.last().pos) + (
        if m.last().pending is Some {
            1int
        } else {
            0int
        })
    }
}

/// Updating one source moves the measure by that source's difference.
proof fn lemma_measure_update(m: Seq<SourceModel>, i: int, s: SourceModel)
    requires
        0 <= i < m.len(),
    ensures
        stream_measure(m.update(i, s)) == stream_measure(m) + ((s.lines.len() - s.pos) + (
        if s.pending is Some {
            1int
        } else {
            0int
        }) - ((m[i].lines.len() - m[i].pos) + (if m[i].pending is Some {
            1int
        } else {
            0int
        }))),
    decreases m.len(),
{
    let m2 = m.update(i, s);
    if i + 1 == m.len() {
        assert(m2.drop_last() =~= m.drop_last());
    } else {
        assert(m2.drop_last() =~= m.drop_last().update(i, s));
        assert(m.drop_last()[i] == m[i]);
        lemma_measure_update(m.drop_last(), i, s);
        assert(m2.last() == m.last());
    }
}

/// A chronological merge of per-character sources: each call hands out the
/// globally earliest pending event.
pub struct MergedStream {
    sources: Vec<LogSource>,
}

impl MergedStream {
    /// The stream's mathematical image.
    pub closed spec fn model(self) -> Seq<SourceModel> {
        self.sources@.map_values(|s: LogSource| s.model())
    }

    /// Every source's position is within its lines.
    pub closed spec fn wf(self) -> bool {
        forall|i: int|
            0 <= i < self.sources@.len() ==> (#[trigger] self.sources@[i]).pos
                <= self.sources@[i].lines@.len()
    }

    /// The initial source image for one `(character, lines)` input.
    pub open spec fn initial_source(character: Seq<char>, lines: Seq<Seq<char>>) -> SourceModel {
        let ns = scan_next(None, lines, 0, character);
        SourceModel {
            character,
            lines,
            pos: ns.pos,
            anchor: ns.anchor,
            pending: ns.event,
        }
    }

    /// Build a stream over `(character, lines)` sources, pre-fetching each
    /// source's first event.
    pub fn new(mut inputs: Vec<(String, Vec<String>)>) -> (r: Self)
        ensures
            r.wf(),
            r.model().len() == inputs@.len(),
            forall|i: int|
                0 <= i < inputs@.len() ==> r.model()[i] == Self::initial_source(
                    (#[trigger] inputs@[i]).0@,
                    inputs@[i].1@.map_values(|l: String| l@),
                ),
    {
        let ghost inputs0 = inputs@;
        let mut sources: Vec<LogSource> = Vec::new();
        while inputs.len() > 0
            invariant
                sources@.len() + inputs@.len() == inputs0.len(),
                inputs@ =~= inputs0.skip(sources@.len() as int),
                forall|i: int|
                    0 <= i < sources@.len() ==> (#[trigger] sources@[i]).model()
                        == Self::initial_source(
                        inputs0[i].0@,
                        inputs0[i].1@.map_values(|l: String| l@),
                    ),
                forall|i: int|
                    0 <= i < sources@.len() ==> (#[trigger] sources@[i]).pos
                        <= sources@[i].lines@.len(),
            decreases inputs@.len(),
        {
            let ghost k = sources@.len() as int;
            let (character, lines) = inputs.remove(0);
            proof {
                assert(inputs0.skip(k)[0] == inputs0[k]);
                assert(inputs0.skip(k).remove(0) =~= inputs0.skip(k + 1));
            }
            let mut src = LogSource {
                character,
                lines,
                pos: 0,
                parser: LineParser::new(),
                pending: None,
            };
            src.refill();
            sources.push(src);
        }
        let r = MergedStream { sources };
        proof {
            assert(inputs@ =~= Seq::<(String, Vec<String>)>::empty());
            assert(forall|i: int|
                0 <= i < r.model().len() ==> #[trigger] r.model()[i] == r.sources@[i].model());
        }
        r
    }

    /// The minimal pending timestamp, without consuming anything.
    pub fn peek_time(&self) -> (r: Option<u64>)
        ensures
            match r {
                Some(t) => min_pending_ts(self.model()) == Some(t as int),
                None => min_pending_ts(self.model()) is None,
            },
    {
        let n = self.sources.len();
        proof {
            assert(self.model().len() == n);
        }
        let mut best: Option<usize> = None;
        let mut i = n;
        while i > 0
            invariant
                i <= n,
                n == self.sources@.len(),
                match best {
                    Some(b) => b < n && min_idx_from(self.model(), i as int) == Some(b as int),
                    None => min_idx_from(self.model(), i as int) is None,
                },
            decreases i,
        {
            proof {
                assert(self.model()[i - 1] == self.sources@[i - 1].model());
                if min_idx_from(self.model(), i as int) is Some {
                    lemma_min_idx(self.model(), i as int);
                }
            }
            match &self.sources[i - 1].pending {
                Some(p) => {
                    let better = match best {
                        Some(b) => {
                            match &self.sources[b].pending {
                                Some(q) => p.0.timestamp_ms <= q.0.timestamp_ms,
                                None => true,
                            }
                        },
                        None => true,
                    };
                    if better {
                        best = Some(i - 1);
                    }
                },
                None => {},
            }
            proof {
                assert(forall|j: int|
                    0 <= j < n ==> #[trigger] self.model()[j] == self.sources@[j].model());
            }
            i -= 1;
        }
        match best {
            Some(b) => {
                proof {
                    lemma_min_idx(self.model(), 0);
                }
                match &self.sources[b].pending {
                    Some(p) => Some(p.0.timestamp_ms),
                    None => None,
                }
            },
            None => None,
        }
    }

    /// Hand out the earliest pending event (ties to the first-registered
    /// source) and pre-fetch that source's next one.
    pub fn next_event(&mut self) -> (r: Option<(CombatEvent, String)>)
        requires
            old(self).wf(),
        ensures
            final(self).wf(),
            match r {
                Some(p) => {
                    let m0 = old(self).model();
                    let i = min_idx_from(m0, 0).unwrap();
                    let ns = scan_next(m0[i].anchor, m0[i].lines, m0[i].pos, m0[i].character);
                    &&& min_idx_from(m0, 0) is Some
                    &&& m0[i].pending is Some
                    &&& p.0@ == m0[i].pending.unwrap().0
                    &&& p.1@ == m0[i].pending.unwrap().1
                    &&& final(self).model() == m0.update(
                        i,
                        SourceModel {
                            pos: ns.pos,
                            anchor: ns.anchor,
                            pending: ns.event,
                            ..m0[i]
                        },
                    )
                    &&& stream_measure(final(self).model()) < stream_measure(m0)
                },
                None => min_idx_from(old(self).model(), 0) is None && *final(self) == *old(self),
            },
    {
        let ghost m0 = self.model();
        let n = self.sources.len();
        proof {
            assert(m0.len() == n);
        }
        let mut best: Option<usize> = None;
        let mut i = n;
        while i > 0
            invariant
                i <= n,
                n == self.sources@.len(),
                *self == *old(self),
                m0 == self.model(),
                match best {
                    Some(b) => b < n && min_idx_from(m0, i as int) == Some(b as int),
                    None => min_idx_from(m0, i as int) is None,
                },
            decreases i,
        {
            proof {
                assert(m0[i - 1] == self.sources@[i - 1].model());
                if min_idx_from(m0, i as int) is Some {
                    lemma_min_idx(m0, i as int);
                }
            }
            match &self.sources[i - 1].pending {
                Some(p) => {
                    let better = match best {
                        Some(b) => {
                            match &self.sources[b].pending {
                                Some(q) => p.0.timestamp_ms <= q.0.timestamp_ms,
                                None => true,
                            }
                        },
                        None => true,
                    };
                    if better {
                        best = Some(i - 1);
                    }
                },
                None => {},
            }
            proof {
                assert(forall|j: int| 0 <= j < n ==> #[trigger] m0[j] == self.sources@[j].model());
            }
            i -= 1;
        }
        let b = match best {
            Some(b) => b,
            None => {
                return None;
            },
        };
        proof {
            lemma_min_idx(m0, 0);
            assert(m0[b as int] == self.sources@[b as int].model());
        }
        let taken = self.sources[b].pending.take();
        self.sources[b].refill();
        proof {
            let mb = m0[b as int];
            let ns = scan_next(mb.anchor, mb.lines, mb.pos, mb.character);
            let updated = SourceModel {
                pos: ns.pos,
                anchor: ns.anchor,
                pending: ns.event,
                ..mb
            };
            assert(self.model() =~= m0.update(b as int, updated)) by {
                assert(forall|j: int|
                    0 <= j < n ==> #[trigger] self.model()[j] == self.sources@[j].model());
                assert(forall|j: int|
                    0 <= j < n && j != b ==> self.sources@[j] == old(self).sources@[j]);
            }
            lemma_scan_next_bounds(mb.anchor, mb.lines, mb.pos, mb.character);
            lemma_measure_update(m0, b as int, updated);
        }
        taken
    }

    /// The earliest session-anchor time any source found, in epoch seconds.
    pub fn min_anchor(&self) -> (r: Option<u64>)
        ensures
            match r {
                Some(a) => min_anchor_from(self.model(), 0) == Some(a as int),
                None => min_anchor_from(self.model(), 0) is None,
            },
    {
        let n = self.sources.len();
        proof {
            assert(self.model().len() == n);
        }
        let mut best: Option<u64> = None;
        let mut i = n;
        while i > 0
            invariant
                i <= n,
                n == self.sources@.len(),
                match best {
                    Some(a) => min_anchor_from(self.model(), i as int) == Some(a as int),
                    None => min_anchor_from(self.model(), i as int) is None,
                },
            decreases i,
        {
            proof {
                assert(self.model()[i - 1] == self.sources@[i - 1].model());
            }
            match self.sources[i - 1].parser.get_base_time() {
                Some(a) => {
                    best = match best {
                        Some(b) => if a <= b {
                            Some(a)
                        } else {
                            Some(b)
                        },
                        None => Some(a),
                    };
                },
                None => {},
            }
            i -= 1;
        }
        best
    }
}

/// The minimal anchor across sources from `i` on.
pub open spec fn min_anchor_from(m: Seq<SourceModel>, i: int) -> Option<int>
    decreases m.len() - i,
{
    if i < 0 || i >= m.len() {
        None
    } else {
        let rest = min_anchor_from(m, i + 1);
        match m[i].anchor {
            None => rest,
            Some(a) => match rest {
                None => Some(a),
                Some(b) => Some(
                    if a <= b {
                        a
                    } else {
                        b
                    },
                ),
            },
        }
    }
}

/// The larger of two optional values.
pub open spec fn opt_max(a: Option<int>, b: Option<int>) -> Option<int> {
    match (a, b) {
        (None, x) => x,
        (x, None) => x,
        (Some(x), Some(y)) => Some(
            if x >= y {
                x
            } else {
                y
            },
        ),
    }
}

/// The latest event timestamp a full scan of the lines finds.
pub open spec fn scan_max(
    anchor: Option<int>,
    lines: Seq<Seq<char>>,
    pos: int,
    owner: Seq<char>,
) -> Option<int>
    decreases lines.len() - pos,
{
    if pos < 0 || pos >= lines.len() {
        None
    } else {
        let o = parse_line_spec(anchor, lines[pos], owner);
        let rest = scan_max(o.anchor, lines, pos + 1, owner);
        match o.event {
            None => rest,
            Some(ev) => opt_max(Some(ev.timestamp_ms), rest),
        }
    }
}

/// The latest event timestamp in one source's full file, per [`scan_max`].
fn max_event_ts(lines: &Vec<String>, owner: &str) -> (r: Option<u64>)
    ensures
        match r {
            Some(t) => scan_max(None, lines@.map_values(|l: String| l@), 0, owner@) == Some(
                t as int,
            ),
            None => scan_max(None, lines@.map_values(|l: String| l@), 0, owner@) is None,
        },
{
    let ghost lm = lines@.map_values(|l: String| l@);
    let mut parser = LineParser::new();
    let mut best: Option<u64> = None;
    let mut pos: usize = 0;
    let n = lines.len();
    proof {
        assert(lm.len() == n);
    }
    while pos < n
        invariant
            pos <= n,
            n == lines@.len(),
            lm == lines@.map_values(|l: String| l@),
            opt_max(
                match best {
                    Some(b) => Some(b as int),
                    None => None,
                },
                scan_max(anchor_of(parser), lm, pos as int, owner@),
            ) == scan_max(None, lm, 0, owner@),
        decreases n - pos,
    {
        let r = parser.parse_line(lines[pos].as_str(), owner);
        proof {
            assert(lm[pos as int] == lines@[pos as int]@);
        }
        match r {
            Some(e) => {
                best = match best {
                    Some(b) => if e.timestamp_ms >= b {
                        Some(e.timestamp_ms)
                    } else {
                        Some(b)
                    },
                    None => Some(e.timestamp_ms),
                };
            },
            None => {},
        }
        pos += 1;
    }
    best
}

/// Whether the virtual clock is running.
#[derive(Clone, Copy, Debug, PartialEq, Eq, Structural)]
pub enum PlaybackState {
    Playing,
    Paused,
}

/// The inputs as mathematical values: `(character, lines)` per source.
pub open spec fn input_models(inputs: Seq<(String, Vec<String>)>) -> Seq<(Seq<char>, Seq<Seq<char>>)> {
    inputs.map_values(|p: (String, Vec<String>)| (p.0@, p.1@.map_values(|l: String| l@)))
}

/// The stream image right after construction over the given inputs.
pub open spec fn initial_stream(ins: Seq<(Seq<char>, Seq<Seq<char>>)>) -> Seq<SourceModel> {
    ins.map_values(|p: (Seq<char>, Seq<Seq<char>>)| MergedStream::initial_source(p.0, p.1))
}

/// The latest event timestamp across all sources' full files.
pub open spec fn overall_max_ts(ins: Seq<(Seq<char>, Seq<Seq<char>>)>) -> Option<int>
    decreases ins.len(),
{
    if ins.len() == 0 {
        None
    } else {
        opt_max(
            overall_max_ts(ins.drop_last()),
            scan_max(None, ins.last().1, 0, ins.last().0),
        )
    }
}

/// Every source's position lies inside its lines.
pub open spec fn model_wf(m: Seq<SourceModel>) -> bool {
    forall|i: int| 0 <= i < m.len() ==> 0 <= (#[trigger] m[i]).pos <= m[i].lines.len()
}

/// Positions inside their lines make the measure non-negative.
proof fn lemma_measure_nonneg(m: Seq<SourceModel>)
    requires
        model_wf(m),
    ensures
        stream_measure(m) >= 0,
    decreases m.len(),
{
    if m.len() > 0 {
        assert(forall|i: int|
            0 <= i < m.drop_last().len() ==> #[trigger] m.drop_last()[i] == m[i]);
        lemma_measure_nonneg(m.drop_last());
        assert(m[m.len() - 1] == m.last());
    }
}

/// The image one drained source leaves behind.
pub open spec fn drained_source(s: SourceModel) -> SourceModel {
    let ns = scan_next(s.anchor, s.lines, s.pos, s.character);
    SourceModel { pos: ns.pos, anchor: ns.anchor, pending: ns.event, ..s }
}

/// What a drain to virtual time `sim` releases: repeatedly the earliest
/// pending pair while its timestamp is at or before `sim`, that source
/// refilled per [`scan_next`] each time — paired with the stream image
/// the drain leaves behind.
pub open spec fn drain_spec(m: Seq<SourceModel>, sim: int) -> (
    Seq<(EventModel, Seq<char>)>,
    Seq<SourceModel>,
)
    decreases stream_measure(m),
        when model_wf(m)
        via drain_spec_decreases
{
    match min_idx_from(m, 0) {
        None => (Seq::empty(), m),
        Some(i) => if 0 <= i < m.len() && m[i].pending is Some {
            let p = m[i].pending.unwrap();
            if p.0.timestamp_ms <= sim {
                let rest = drain_spec(m.update(i, drained_source(m[i])), sim);
                (seq![p] + rest.0, rest.1)
            } else {
                (Seq::empty(), m)
            }
        } else {
            (Seq::empty(), m)
        },
    }
}

#[via_fn]
proof fn drain_spec_decreases(m: Seq<SourceModel>, sim: int) {
    lemma_min_idx(m, 0);
    match min_idx_from(m, 0) {
        None => {},
        Some(i) => {
            if 0 <= i < m.len() && m[i].pending is Some {
                let p = m[i].pending.unwrap();
                if p.0.timestamp_ms <= sim {
                    lemma_drain_step(m, i);
                }
            }
        },
    }
}

/// One drain step shrinks the measure and keeps the stream well formed.
proof fn lemma_drain_step(m: Seq<SourceModel>, i: int)
    requires
        model_wf(m),
        0 <= i < m.len(),
        m[i].pending is Some,
    ensures
        model_wf(m.update(i, drained_source(m[i]))),
        stream_measure(m.update(i, drained_source(m[i]))) < stream_measure(m),
        stream_measure(m.update(i, drained_source(m[i]))) >= 0,
{
    let upd = drained_source(m[i]);
    lemma_scan_next_bounds(m[i].anchor, m[i].lines, m[i].pos, m[i].character);
    lemma_measure_update(m, i, upd);
    assert(model_wf(m.update(i, upd)));
    lemma_measure_nonneg(m.update(i, upd));
}

/// A drain leaves a well-formed stream behind.
pub proof fn lemma_drain_wf(m: Seq<SourceModel>, sim: int)
    requires
        model_wf(m),
    ensures
        model_wf(drain_spec(m, sim).1),
    decreases stream_measure(m),
{
    lemma_measure_nonneg(m);
    lemma_min_idx(m, 0);
    match min_idx_from(m, 0) {
        None => {},
        Some(i) => {
            if m[i].pending is Some && m[i].pending.unwrap().0.timestamp_ms <= sim {
                lemma_drain_step(m, i);
                lemma_drain_wf(m.update(i, drained_source(m[i])), sim);
            }
        },
    }
}

/// Law: draining in stages releases the same pairs as draining at once —
/// a drain to `s1` followed by a drain to a later `s2` concatenates to the
/// single drain to `s2`, and leaves the same stream. So the events a
/// replay releases over a whole session do not depend on how the virtual
/// clock was stepped there — only their arrival cadence does.
pub proof fn lemma_drain_split(m: Seq<SourceModel>, s1: int, s2: int)
    requires
        model_wf(m),
        s1 <= s2,
    ensures
        drain_spec(m, s2).0 == drain_spec(m, s1).0 + drain_spec(drain_spec(m, s1).1, s2).0,
        drain_spec(m, s2).1 == drain_spec(drain_spec(m, s1).1, s2).1,
    decreases stream_measure(m),
{
    lemma_measure_nonneg(m);
    lemma_min_idx(m, 0);
    match min_idx_from(m, 0) {
        None => {
            assert(drain_spec(m, s2).0 =~= drain_spec(m, s1).0 + drain_spec(
                drain_spec(m, s1).1,
                s2,
            ).0);
        },
        Some(i) => {
            let p = m[i].pending.unwrap();
            if p.0.timestamp_ms <= s1 {
                let m2 = m.update(i, drained_source(m[i]));
                lemma_drain_step(m, i);
                lemma_drain_split(m2, s1, s2);
                assert(drain_spec(m, s2).0 =~= drain_spec(m, s1).0 + drain_spec(
                    drain_spec(m, s1).1,
                    s2,
                ).0);
            } else {
                assert(drain_spec(m, s1).0 =~= Seq::<(EventModel, Seq<char>)>::empty());
                assert(drain_spec(m, s1).1 == m);
                assert(drain_spec(m, s2).0 =~= drain_spec(m, s1).0 + drain_spec(
                    drain_spec(m, s1).1,
                    s2,
                ).0);
            }
        },
    }
}

/// Deep copy of the `(character, lines)` inputs.
fn clone_inputs(v: &Vec<(String, Vec<String>)>) -> (r: Vec<(String, Vec<String>)>)
    ensures
        input_models(r@) == input_models(v@),
{
    let mut r: Vec<(String, Vec<String>)> = Vec::new();
    let mut i: usize = 0;
    while i < v.len()
        invariant
            i <= v@.len(),
            r@.len() == i,
            forall|j: int|
                0 <= j < i ==> (#[trigger] r@[j]).0@ == v@[j].0@ && r@[j].1@.map_values(
                    |l: String| l@,
                ) == v@[j].1@.map_values(|l: String| l@),
        decreases v@.len() - i,
    {
        let name = v[i].0.clone();
        let src = &v[i].1;
        let mut lines: Vec<String> = Vec::new();
        let mut k: usize = 0;
        while k < src.len()
            invariant
                k <= src@.len(),
                lines@.len() == k,
                forall|j: int| 0 <= j < k ==> (#[trigger] lines@[j])@ == src@[j]@,
            decreases src@.len() - k,
        {
            lines.push(src[k].clone());
            k += 1;
        }
        proof {
            assert(lines@.map_values(|l: String| l@) =~= src@.map_values(|l: String| l@));
        }
        r.push((name, lines));
        i += 1;
    }
    proof {
        assert(input_models(r@) =~= input_models(v@));
    }
    r
}

/// The playback controller: a two-state machine over the merged stream,
/// with a virtual clock advanced by caller-provided wall-clock readings.
pub struct ReplayController {
    inputs: Vec<(String, Vec<String>)>,
    stream: MergedStream,
    state: PlaybackState,
    /// Virtual speed, in thousandths: 1000 is real time.
    speed_milli: u64,
    session_start_ms: u64,
    session_duration_ms: u64,
    /// Earliest session anchor across sources, in epoch seconds.
    session_epoch_start: u64,
    current_sim_ms: u64,
    last_wall_ms: u64,
}

impl ReplayController {
    /// The remembered inputs, as mathematical values.
    pub closed spec fn inputs_model(self) -> Seq<(Seq<char>, Seq<Seq<char>>)> {
        input_models(self.inputs@)
    }

    /// The merge stream's image.
    pub closed spec fn stream_model(self) -> Seq<SourceModel> {
        self.stream.model()
    }

    pub closed spec fn spec_state(self) -> PlaybackState {
        self.state
    }

    pub closed spec fn spec_speed(self) -> int {
        self.speed_milli as int
    }

    pub closed spec fn spec_start(self) -> int {
        self.session_start_ms as int
    }

    pub closed spec fn spec_duration(self) -> int {
        self.session_duration_ms as int
    }

    pub closed spec fn spec_epoch(self) -> int {
        self.session_epoch_start as int
    }

    pub closed spec fn spec_sim(self) -> int {
        self.current_sim_ms as int
    }

    pub closed spec fn spec_wall(self) -> int {
        self.last_wall_ms as int
    }

    /// The controller's invariant: its stream is well formed.
    pub closed spec fn wf(self) -> bool {
        self.stream.wf()
    }

    /// Everything but the stream, the virtual clock and the wall marker.
    pub open spec fn same_session(a: ReplayController, b: ReplayController) -> bool {
        &&& a.inputs_model() == b.inputs_model()
        &&& a.spec_speed() == b.spec_speed()
        &&& a.spec_start() == b.spec_start()
        &&& a.spec_duration() == b.spec_duration()
        &&& a.spec_epoch() == b.spec_epoch()
    }

    /// Build a controller over `(character, lines)` sources. Fails — with
    /// no partial controller — when no source yields a session anchor.
    pub fn new(inputs: Vec<(String, Vec<String>)>, now_wall_ms: u64) -> (r: Option<
        ReplayController,
    >)
        ensures
            ({
                let ins = input_models(inputs@);
                let ism = initial_stream(ins);
                match r {
                    Some(c) => {
                        &&& c.wf()
                        &&& min_anchor_from(ism, 0) is Some
                        &&& c.spec_epoch() == min_anchor_from(ism, 0).unwrap()
                        &&& c.stream_model() == ism
                        &&& c.inputs_model() == ins
                        &&& c.spec_start() == (match min_pending_ts(ism) {
                            Some(t) => t,
                            None => 0,
                        })
                        &&& c.spec_duration() == (match opt_max(
                            overall_max_ts(ins),
                            Some(c.spec_start()),
                        ) {
                            Some(e) => e - c.spec_start(),
                            None => 0,
                        })
                        &&& c.spec_state() == PlaybackState::Paused
                        &&& c.spec_speed() == 1000
                        &&& c.spec_sim() == c.spec_start()
                        &&& c.spec_wall() == now_wall_ms
                    },
                    None => min_anchor_from(ism, 0) is None,
                }
            }),
    {
        let ghost ins = input_models(inputs@);
        let kept = clone_inputs(&inputs);
        let mut overall: Option<u64> = None;
        let mut i: usize = 0;
        let n = inputs.len();
        proof {
            assert(ins.len() == n);
            assert(overall_max_ts(ins.subrange(0, 0)) is None);
        }
        while i < n
            invariant
                i <= n,
                n == inputs@.len(),
                ins == input_models(inputs@),
                input_models(kept@) == ins,
                match overall {
                    Some(t) => overall_max_ts(ins.subrange(0, i as int)) == Some(t as int),
                    None => overall_max_ts(ins.subrange(0, i as int)) is None,
                },
            decreases n - i,
        {
            let m = max_event_ts(&inputs[i].1, inputs[i].0.as_str());
            proof {
                assert(ins[i as int] == (inputs@[i as int].0@, inputs@[i as int].1@.map_values(
                    |l: String| l@,
                )));
                assert(ins.subrange(0, i + 1 as int).drop_last() =~= ins.subrange(0, i as int));
                assert(ins.subrange(0, i + 1 as int).last() == ins[i as int]);
            }
            overall = match (overall, m) {
                (None, x) => x,
                (x, None) => x,
                (Some(a), Some(b)) => if a >= b {
                    Some(a)
                } else {
                    Some(b)
                },
            };
            i += 1;
        }
        proof {
            assert(ins.subrange(0, n as int) =~= ins);
        }
        let stream = MergedStream::new(inputs);
        proof {
            assert(stream.model() =~= initial_stream(ins));
        }
        let epoch = match stream.min_anchor() {
            Some(a) => a,
            None => {
                return None;
            },
        };
        let start = match stream.peek_time() {
            Some(t) => t,
            None => 0,
        };
        let end = match overall {
            Some(t) => if t >= start {
                t
            } else {
                start
            },
            None => start,
        };
        Some(
            ReplayController {
                inputs: kept,
                stream,
                state: PlaybackState::Paused,
                speed_milli: 1000,
                session_start_ms: start,
                session_duration_ms: end - start,
                session_epoch_start: epoch,
                current_sim_ms: start,
                last_wall_ms: now_wall_ms,
            },
        )
    }

    /// Switch between playing and paused; the wall marker resets so no
    /// virtual time jumps across the boundary.
    pub fn set_state(&mut self, state: PlaybackState, now_wall_ms: u64)
        requires
            old(self).wf(),
        ensures
            final(self).wf(),
            final(self).spec_state() == state,
            final(self).spec_wall() == now_wall_ms,
            final(self).spec_sim() == old(self).spec_sim(),
            final(self).stream_model() == old(self).stream_model(),
            Self::same_session(*final(self), *old(self)),
    {
        self.last_wall_ms = now_wall_ms;
        self.state = state;
    }

    /// The current playback state.
    pub fn get_state(&self) -> (r: PlaybackState)
        ensures
            r == self.spec_state(),
    {
        self.state
    }

    /// Set the virtual speed, in thousandths of real time; it takes effect
    /// on the next tick.
    pub fn set_speed(&mut self, speed_milli: u64)
        requires
            old(self).wf(),
        ensures
            final(self).wf(),
            final(self).spec_speed() == speed_milli,
            final(self).spec_state() == old(self).spec_state(),
            final(self).spec_sim() == old(self).spec_sim(),
            final(self).spec_wall() == old(self).spec_wall(),
            final(self).stream_model() == old(self).stream_model(),
            final(self).inputs_model() == old(self).inputs_model(),
            final(self).spec_start() == old(self).spec_start(),
            final(self).spec_duration() == old(self).spec_duration(),
            final(self).spec_epoch() == old(self).spec_epoch(),
    {
        self.speed_milli = speed_milli;
    }

    /// Advance the virtual clock by a fixed amount without consulting the
    /// wall clock; the wall marker resets so the next tick does not jump.
    pub fn step(&mut self, delta_ms: u64, now_wall_ms: u64)
        requires
            old(self).wf(),
        ensures
            final(self).wf(),
            final(self).spec_sim() == (if old(self).spec_sim() + delta_ms > u64::MAX {
                u64::MAX as int
            } else {
                old(self).spec_sim() + delta_ms
            }),
            final(self).spec_wall() == now_wall_ms,
            final(self).spec_state() == old(self).spec_state(),
            final(self).stream_model() == old(self).stream_model(),
            Self::same_session(*final(self), *old(self)),
    {
        self.current_sim_ms = self.current_sim_ms.saturating_add(delta_ms);
        self.last_wall_ms = now_wall_ms;
    }

    /// Rebuild the stream from the remembered inputs and move the virtual
    /// clock straight to `offset_ms` past the session start, emitting
    /// nothing for the skipped interval.
    pub fn seek(&mut self, offset_ms: u64, now_wall_ms: u64)
        requires
            old(self).wf(),
        ensures
            final(self).wf(),
            final(self).stream_model() == initial_stream(old(self).inputs_model()),
            final(self).spec_sim() == (if old(self).spec_start() + offset_ms > u64::MAX {
                u64::MAX as int
            } else {
                old(self).spec_start() + offset_ms
            }),
            final(self).spec_wall() == now_wall_ms,
            final(self).spec_state() == old(self).spec_state(),
            Self::same_session(*final(self), *old(self)),
    {
        let fresh = clone_inputs(&self.inputs);
        let ghost ins = input_models(self.inputs@);
        self.stream = MergedStream::new(fresh);
        proof {
            assert(self.stream.model() =~= initial_stream(ins));
        }
        self.current_sim_ms = self.session_start_ms.saturating_add(offset_ms);
        self.last_wall_ms = now_wall_ms;
    }

    /// The virtual clock, as an offset from the session anchor.
    pub fn current_sim_time(&self) -> (r: u64)
        ensures
            r == self.spec_sim(),
    {
        self.current_sim_ms
    }

    /// Progress past the session start.
    pub fn relative_progress(&self) -> (r: u64)
        ensures
            r as int == (if self.spec_sim() >= self.spec_start() {
                self.spec_sim() - self.spec_start()
            } else {
                0
            }),
    {
        self.current_sim_ms.saturating_sub(self.session_start_ms)
    }

    /// Length of the session: latest event minus session start.
    pub fn session_duration(&self) -> (r: u64)
        ensures
            r == self.spec_duration(),
    {
        self.session_duration_ms
    }

    /// Absolute start of the replayed session, in epoch milliseconds:
    /// the earliest anchor plus the first event's offset.
    pub fn start_time(&self) -> (r: u64)
        ensures
            r as int == (if self.spec_epoch() * 1000 + self.spec_start() > u64::MAX {
                u64::MAX as int
            } else {
                self.spec_epoch() * 1000 + self.spec_start()
            }),
    {
        let total: u128 = self.session_epoch_start as u128 * 1000 + self.session_start_ms as u128;
        if total > u64::MAX as u128 {
            u64::MAX
        } else {
            total as u64
        }
    }

    /// One caller-driven tick: measure wall time since the last tick, scale
    /// it by the speed, advance the virtual clock, and release every event
    /// whose timestamp the clock has crossed, with its raw line.
    pub fn tick(&mut self, now_wall_ms: u64) -> (r: (Vec<CombatEvent>, Vec<String>))
        requires
            old(self).wf(),
        ensures
            final(self).wf(),
            final(self).spec_wall() == now_wall_ms,
            final(self).spec_state() == old(self).spec_state(),
            Self::same_session(*final(self), *old(self)),
            old(self).spec_state() == PlaybackState::Paused ==> r.0@.len() == 0 && r.1@.len() == 0
                && final(self).stream_model() == old(self).stream_model() && final(self).spec_sim()
                == old(self).spec_sim(),
            old(self).spec_state() == PlaybackState::Playing ==> ({
                let elapsed: int = if now_wall_ms >= old(self).spec_wall() {
                    now_wall_ms - old(self).spec_wall()
                } else {
                    0
                };
                let adv = elapsed * old(self).spec_speed() / 1000;
                let sim: int = if old(self).spec_sim() + adv > u64::MAX {
                    u64::MAX as int
                } else {
                    old(self).spec_sim() + adv
                };
                let dr = drain_spec(old(self).stream_model(), sim);
                &&& final(self).spec_sim() == sim
                &&& r.0@.map_values(|e: CombatEvent| e@) == dr.0.map_values(
                    |p: (EventModel, Seq<char>)| p.0,
                )
                &&& r.1@.map_values(|l: String| l@) == dr.0.map_values(
                    |p: (EventModel, Seq<char>)| p.1,
                )
                &&& final(self).stream_model() == dr.1
                &&& r.0@.len() == r.1@.len()
                &&& forall|i: int|
                    0 <= i < r.0@.len() ==> (#[trigger] r.0@[i]).timestamp_ms <= sim
                &&& (min_pending_ts(final(self).stream_model()) is Some ==> min_pending_ts(
                    final(self).stream_model(),
                ).unwrap() > sim)
            }),
    {
        let elapsed: u64 = if now_wall_ms >= self.last_wall_ms {
            now_wall_ms - self.last_wall_ms
        } else {
            0
        };
        self.last_wall_ms = now_wall_ms;
        if self.state == PlaybackState::Paused {
            return (Vec::new(), Vec::new());
        }
        proof {
            assert((elapsed as int) * (self.speed_milli as int) <= u128::MAX) by (nonlinear_arith)
                requires
                    0 <= elapsed <= u64::MAX,
                    0 <= self.speed_milli <= u64::MAX,
            ;
        }
        let adv128: u128 = elapsed as u128 * self.speed_milli as u128 / 1000;
        let sum: u128 = self.current_sim_ms as u128 + adv128;
        self.current_sim_ms = if sum > u64::MAX as u128 {
            u64::MAX
        } else {
            sum as u64
        };
        let ghost sim = self.current_sim_ms as int;
        let ghost frozen = *self;
        let ghost m_start = self.stream.model();
        let ghost mut taken: Seq<(EventModel, Seq<char>)> = Seq::empty();
        let mut evs: Vec<CombatEvent> = Vec::new();
        let mut lines: Vec<String> = Vec::new();
        proof {
            assert(forall|j: int|
                0 <= j < m_start.len() ==> (#[trigger] m_start[j]).pos
                    == self.stream.sources@[j].pos && m_start[j].lines.len()
                    == self.stream.sources@[j].lines@.len());
            assert(model_wf(m_start));
            assert(taken + drain_spec(m_start, sim).0 =~= drain_spec(m_start, sim).0);
        }
        loop
            invariant
                self.stream.wf(),
                self.state == frozen.state,
                self.speed_milli == frozen.speed_milli,
                self.inputs == frozen.inputs,
                self.session_start_ms == frozen.session_start_ms,
                self.session_duration_ms == frozen.session_duration_ms,
                self.session_epoch_start == frozen.session_epoch_start,
                self.current_sim_ms == frozen.current_sim_ms,
                self.last_wall_ms == frozen.last_wall_ms,
                sim == self.current_sim_ms as int,
                model_wf(self.stream.model()),
                drain_spec(m_start, sim).0 == taken + drain_spec(self.stream.model(), sim).0,
                drain_spec(m_start, sim).1 == drain_spec(self.stream.model(), sim).1,
                evs@.len() == taken.len(),
                lines@.len() == taken.len(),
                forall|k: int| 0 <= k < taken.len() ==> (#[trigger] evs@[k])@ == taken[k].0,
                forall|k: int| 0 <= k < taken.len() ==> (#[trigger] lines@[k])@ == taken[k].1,
                forall|i: int| 0 <= i < evs@.len() ==> (#[trigger] evs@[i]).timestamp_ms <= sim,
            ensures
                min_pending_ts(self.stream.model()) is Some ==> min_pending_ts(
                    self.stream.model(),
                ).unwrap() > sim,
                drain_spec(m_start, sim).0 == taken,
                drain_spec(m_start, sim).1 == self.stream.model(),
            decreases stream_measure(self.stream.model()),
        {
            proof {
                lemma_measure_nonneg(self.stream.model());
                lemma_min_idx(self.stream.model(), 0);
            }
            let next_due = match self.stream.peek_time() {
                Some(t) => t <= self.current_sim_ms,
                None => false,
            };
            if !next_due {
                proof {
                    let cur = self.stream.model();
                    assert(drain_spec(cur, sim).0 =~= Seq::<(EventModel, Seq<char>)>::empty());
                    assert(taken + drain_spec(cur, sim).0 =~= taken);
                }
                break ;
            }
            let ghost m0 = self.stream.model();
            let ghost taken0 = taken;
            match self.stream.next_event() {
                Some(p) => {
                    proof {
                        let i_min = min_idx_from(m0, 0).unwrap();
                        let pend = m0[i_min].pending.unwrap();
                        let m2 = m0.update(i_min, drained_source(m0[i_min]));
                        assert(self.stream.model() =~= m2);
                        lemma_drain_step(m0, i_min);
                        assert(drain_spec(m0, sim).0 =~= seq![pend] + drain_spec(m2, sim).0);
                        assert(drain_spec(m0, sim).1 == drain_spec(m2, sim).1);
                        taken = taken.push(pend);
                        assert(taken0 + (seq![pend] + drain_spec(m2, sim).0) =~= taken
                            + drain_spec(m2, sim).0);
                    }
                    evs.push(p.0);
                    lines.push(p.1);
                },
                None => {
                    proof {
                        assert(false);
                    }
                    break ;
                },
            }
        }
        proof {
            assert(evs@.map_values(|e: CombatEvent| e@) =~= taken.map_values(
                |p: (EventModel, Seq<char>)| p.0,
            ));
            assert(lines@.map_values(|l: String| l@) =~= taken.map_values(
                |p: (EventModel, Seq<char>)| p.1,
            ));
        }
        (evs, lines)
    }
}

} // verus!
