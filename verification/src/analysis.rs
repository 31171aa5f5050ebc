//! The sliding-window analytics engine: from an ordered sequence of events
//! to a series of per-second rate samples with breakdowns, by an amortized
//! two-pointer pass — each event is added once and removed once across the
//! whole series.

use vstd::prelude::*;

use crate::model::action_of;
use crate::model::ActionKey;
use crate::model::CombatAction;
use crate::model::CombatEvent;
use crate::model::Direction;
use crate::model::EventKind;
use crate::model::EventModel;
use crate::model::Sample;
use crate::ratemap::rate_of;
use crate::ratemap::rate_of_sum;
use crate::ratemap::ActionRateMap;
use crate::ratemap::AKey;
use crate::ratemap::RateMap;

verus! {

/// The mathematical image of a sequence of events.
pub open spec fn models(s: Seq<CombatEvent>) -> Seq<EventModel> {
    s.map(|i: int, e: CombatEvent| e@)
}

/// Events ordered by timestamp, non-decreasing.
pub open spec fn sorted_by_ts(s: Seq<CombatEvent>) -> bool {
    forall|i: int, j: int|
        0 <= i < j < s.len() ==> (#[trigger] s[i]).timestamp_ms <= (#[trigger] s[j]).timestamp_ms
}

/// Sum of `f` over the events with index in `[lo, hi)`.
pub open spec fn range_sum(
    s: Seq<EventModel>,
    lo: int,
    hi: int,
    f: spec_fn(EventModel) -> int,
) -> int
    decreases hi - lo,
{
    if hi <= lo {
        0
    } else {
        range_sum(s, lo, hi - 1, f) + f(s[hi - 1])
    }
}

/// A range sum peels off its first element.
pub proof fn lemma_range_sum_split_first(
    s: Seq<EventModel>,
    lo: int,
    hi: int,
    f: spec_fn(EventModel) -> int,
)
    requires
        lo < hi,
    ensures
        range_sum(s, lo, hi, f) == f(s[lo]) + range_sum(s, lo + 1, hi, f),
    decreases hi - lo,
{
    if lo + 1 < hi {
        lemma_range_sum_split_first(s, lo, hi - 1, f);
        assert(range_sum(s, lo + 1, hi, f) == range_sum(s, lo + 1, hi - 1, f) + f(s[hi - 1]));
    } else {
        assert(range_sum(s, lo, lo, f) == 0);
    }
}

/// A sum of non-negative terms is non-negative and bounded per term.
pub proof fn lemma_range_sum_bounds(
    s: Seq<EventModel>,
    lo: int,
    hi: int,
    f: spec_fn(EventModel) -> int,
)
    requires
        lo <= hi,
        forall|i: int| lo <= i < hi ==> 0 <= #[trigger] f(s[i]) <= u64::MAX,
    ensures
        0 <= range_sum(s, lo, hi, f) <= (hi - lo) * (u64::MAX as int),
    decreases hi - lo,
{
    if lo < hi {
        lemma_range_sum_bounds(s, lo, hi - 1, f);
    }
}

/// Sums of pointwise-equal selectors are equal.
pub proof fn lemma_range_sum_congruent(
    s: Seq<EventModel>,
    lo: int,
    hi: int,
    f: spec_fn(EventModel) -> int,
    g: spec_fn(EventModel) -> int,
)
    requires
        forall|i: int| lo <= i < hi ==> #[trigger] f(s[i]) == g(s[i]),
    ensures
        range_sum(s, lo, hi, f) == range_sum(s, lo, hi, g),
    decreases hi - lo,
{
    if lo < hi {
        lemma_range_sum_congruent(s, lo, hi - 1, f, g);
    }
}

/// A sum of zero terms is zero.
pub proof fn lemma_range_sum_zero(
    s: Seq<EventModel>,
    lo: int,
    hi: int,
    f: spec_fn(EventModel) -> int,
)
    requires
        forall|i: int| lo <= i < hi ==> #[trigger] f(s[i]) == 0,
    ensures
        range_sum(s, lo, hi, f) == 0,
    decreases hi - lo,
{
    if lo < hi {
        lemma_range_sum_zero(s, lo, hi - 1, f);
    }
}

/// Range sums concatenate.
pub proof fn lemma_range_sum_concat(
    s: Seq<EventModel>,
    a: int,
    b: int,
    c: int,
    f: spec_fn(EventModel) -> int,
)
    requires
        a <= b <= c,
    ensures
        range_sum(s, a, c, f) == range_sum(s, a, b, f) + range_sum(s, b, c, f),
    decreases c - b,
{
    if b < c {
        lemma_range_sum_concat(s, a, b, c - 1, f);
    }
}

/// Contribution of an event to one (kind, direction) scalar.
pub open spec fn sel_amount(kind: EventKind, dir: Direction) -> spec_fn(EventModel) -> int {
    |e: EventModel|
        if e.kind == kind && e.direction == dir {
            e.amount_milli
        } else {
            0
        }
}

/// Key extractor: the action name.
pub open spec fn kf_action() -> spec_fn(EventModel) -> Seq<char> {
    |e: EventModel| e.action_name
}

/// Key extractor: the target entity.
pub open spec fn kf_target() -> spec_fn(EventModel) -> Seq<char> {
    |e: EventModel| e.target
}

/// Key extractor: the source entity.
pub open spec fn kf_source() -> spec_fn(EventModel) -> Seq<char> {
    |e: EventModel| e.source
}

/// Key extractor: the owning character.
pub open spec fn kf_character() -> spec_fn(EventModel) -> Seq<char> {
    |e: EventModel| e.character
}

/// Contribution of an event to one key of a keyed breakdown.
pub open spec fn by_key_sel(
    kind: EventKind,
    dir: Direction,
    keyf: spec_fn(EventModel) -> Seq<char>,
    k: Seq<char>,
) -> spec_fn(EventModel) -> int {
    |e: EventModel|
        if e.kind == kind && e.direction == dir && keyf(e) == k {
            e.amount_milli
        } else {
            0
        }
}

/// Contribution of an event to one composite action key.
pub open spec fn akey_sel(k: AKey) -> spec_fn(EventModel) -> int {
    |e: EventModel|
        if (e.character, e.action_name, e.kind, e.direction) == k {
            e.amount_milli
        } else {
            0
        }
}

/// The selector restricted to the window `[t - w, t]`.
pub open spec fn windowed(f: spec_fn(EventModel) -> int, t: int, w: int) -> spec_fn(
    EventModel,
) -> int {
    |e: EventModel|
        if t - w <= e.timestamp_ms <= t {
            f(e)
        } else {
            0
        }
}

/// Window sum of one (kind, direction) scalar over the whole sequence.
pub open spec fn wsum(s: Seq<EventModel>, t: int, w: int, kind: EventKind, dir: Direction) -> int {
    range_sum(s, 0, s.len() as int, windowed(sel_amount(kind, dir), t, w))
}

/// Window sum for one key of a keyed breakdown.
pub open spec fn wkey_sum(
    s: Seq<EventModel>,
    t: int,
    w: int,
    kind: EventKind,
    dir: Direction,
    keyf: spec_fn(EventModel) -> Seq<char>,
    k: Seq<char>,
) -> int {
    range_sum(s, 0, s.len() as int, windowed(by_key_sel(kind, dir, keyf, k), t, w))
}

/// Window sum for one composite action key.
pub open spec fn waction_sum(s: Seq<EventModel>, t: int, w: int, k: AKey) -> int {
    range_sum(s, 0, s.len() as int, windowed(akey_sel(k), t, w))
}

/// With the two pointers at their window boundaries, the running range sum
/// is the window sum over the whole sequence.
pub proof fn lemma_window_range(
    s: Seq<EventModel>,
    lo: int,
    hi: int,
    t: int,
    w: int,
    f: spec_fn(EventModel) -> int,
)
    requires
        0 <= lo <= hi <= s.len(),
        forall|i: int| 0 <= i < lo ==> (#[trigger] s[i]).timestamp_ms < t - w,
        forall|i: int| lo <= i < hi ==> t - w <= (#[trigger] s[i]).timestamp_ms <= t,
        forall|i: int| hi <= i < s.len() ==> (#[trigger] s[i]).timestamp_ms > t,
    ensures
        range_sum(s, 0, s.len() as int, windowed(f, t, w)) == range_sum(s, lo, hi, f),
{
    let wf = windowed(f, t, w);
    lemma_range_sum_concat(s, 0, lo, s.len() as int, wf);
    lemma_range_sum_concat(s, lo, hi, s.len() as int, wf);
    lemma_range_sum_zero(s, 0, lo, wf);
    lemma_range_sum_zero(s, hi, s.len() as int, wf);
    lemma_range_sum_congruent(s, lo, hi, wf, f);
}

/// Mathematical image of a [`Sample`]: breakdowns as maps from key to rate.
#[verifier::ext_equal]
pub struct SampleModel {
    pub time_ms: int,
    pub window_ms: int,
    pub outgoing_dps: int,
    pub incoming_dps: int,
    pub outgoing_repair: int,
    pub incoming_repair: int,
    pub outgoing_capacitor: int,
    pub incoming_capacitor: int,
    pub outgoing_drain: int,
    pub incoming_drain: int,
    pub outgoing_by_weapon: Map<Seq<char>, int>,
    pub outgoing_by_target: Map<Seq<char>, int>,
    pub incoming_by_source: Map<Seq<char>, int>,
    pub outgoing_by_character: Map<Seq<char>, int>,
    pub incoming_by_character: Map<Seq<char>, int>,
    pub combat_actions: Map<AKey, int>,
}

/// The map named by a breakdown pair list.
pub open spec fn pairs_to_map(pairs: Seq<(String, u64)>) -> Map<Seq<char>, int>
    decreases pairs.len(),
{
    if pairs.len() == 0 {
        Map::empty()
    } else {
        pairs_to_map(pairs.drop_last()).insert(pairs.last().0@, pairs.last().1 as int)
    }
}

/// The map named by a combat-action list.
pub open spec fn actions_to_map(list: Seq<CombatAction>) -> Map<AKey, int>
    decreases list.len(),
{
    if list.len() == 0 {
        Map::empty()
    } else {
        actions_to_map(list.drop_last()).insert(action_of(list.last()), list.last().rate as int)
    }
}

/// Every breakdown list of a sample names each key at most once.
pub open spec fn sample_distinct(smp: Sample) -> bool {
    &&& forall|i: int, j: int|
        0 <= i < j < smp.outgoing_by_weapon@.len() ==> smp.outgoing_by_weapon@[i].0@
            != smp.outgoing_by_weapon@[j].0@
    &&& forall|i: int, j: int|
        0 <= i < j < smp.outgoing_by_target@.len() ==> smp.outgoing_by_target@[i].0@
            != smp.outgoing_by_target@[j].0@
    &&& forall|i: int, j: int|
        0 <= i < j < smp.incoming_by_source@.len() ==> smp.incoming_by_source@[i].0@
            != smp.incoming_by_source@[j].0@
    &&& forall|i: int, j: int|
        0 <= i < j < smp.outgoing_by_character@.len() ==> smp.outgoing_by_character@[i].0@
            != smp.outgoing_by_character@[j].0@
    &&& forall|i: int, j: int|
        0 <= i < j < smp.incoming_by_character@.len() ==> smp.incoming_by_character@[i].0@
            != smp.incoming_by_character@[j].0@
    &&& forall|i: int, j: int|
        0 <= i < j < smp.combat_actions@.len() ==> action_of(smp.combat_actions@[i]) != action_of(
            smp.combat_actions@[j],
        )
}

/// The mathematical image of a sample.
pub open spec fn sample_model_of(smp: Sample) -> SampleModel {
    SampleModel {
        time_ms: smp.time_ms as int,
        window_ms: smp.window_ms as int,
        outgoing_dps: smp.outgoing_dps as int,
        incoming_dps: smp.incoming_dps as int,
        outgoing_repair: smp.outgoing_repair as int,
        incoming_repair: smp.incoming_repair as int,
        outgoing_capacitor: smp.outgoing_capacitor as int,
        incoming_capacitor: smp.incoming_capacitor as int,
        outgoing_drain: smp.outgoing_drain as int,
        incoming_drain: smp.incoming_drain as int,
        outgoing_by_weapon: pairs_to_map(smp.outgoing_by_weapon@),
        outgoing_by_target: pairs_to_map(smp.outgoing_by_target@),
        incoming_by_source: pairs_to_map(smp.incoming_by_source@),
        outgoing_by_character: pairs_to_map(smp.outgoing_by_character@),
        incoming_by_character: pairs_to_map(smp.incoming_by_character@),
        combat_actions: actions_to_map(smp.combat_actions@),
    }
}

/// One breakdown of the sample at time `t`: each key with a positive
/// window sum, mapped to its rate.
pub open spec fn breakdown_map(
    s: Seq<EventModel>,
    t: int,
    w: int,
    kind: EventKind,
    dir: Direction,
    keyf: spec_fn(EventModel) -> Seq<char>,
) -> Map<Seq<char>, int> {
    Map::new(
        |k: Seq<char>| wkey_sum(s, t, w, kind, dir, keyf, k) > 0,
        |k: Seq<char>| rate_of(wkey_sum(s, t, w, kind, dir, keyf, k), w),
    )
}

/// The unified action breakdown of the sample at time `t`.
pub open spec fn actions_map(s: Seq<EventModel>, t: int, w: int) -> Map<AKey, int> {
    Map::new(
        |k: AKey| waction_sum(s, t, w, k) > 0,
        |k: AKey| rate_of(waction_sum(s, t, w, k), w),
    )
}

/// The sample the engine owes at grid time `t` with window `w`.
pub open spec fn spec_sample(s: Seq<EventModel>, t: int, w: int) -> SampleModel {
    SampleModel {
        time_ms: t,
        window_ms: w,
        outgoing_dps: rate_of(wsum(s, t, w, EventKind::Damage, Direction::Outgoing), w),
        incoming_dps: rate_of(wsum(s, t, w, EventKind::Damage, Direction::Incoming), w),
        outgoing_repair: rate_of(wsum(s, t, w, EventKind::Repair, Direction::Outgoing), w),
        incoming_repair: rate_of(wsum(s, t, w, EventKind::Repair, Direction::Incoming), w),
        outgoing_capacitor: rate_of(
            wsum(s, t, w, EventKind::CapacitorTransfer, Direction::Outgoing),
            w,
        ),
        incoming_capacitor: rate_of(
            wsum(s, t, w, EventKind::CapacitorTransfer, Direction::Incoming),
            w,
        ),
        outgoing_drain: rate_of(wsum(s, t, w, EventKind::EnergyDrain, Direction::Outgoing), w),
        incoming_drain: rate_of(wsum(s, t, w, EventKind::EnergyDrain, Direction::Incoming), w),
        outgoing_by_weapon: breakdown_map(
            s,
            t,
            w,
            EventKind::Damage,
            Direction::Outgoing,
            kf_action(),
        ),
        outgoing_by_target: breakdown_map(
            s,
            t,
            w,
            EventKind::Damage,
            Direction::Outgoing,
            kf_target(),
        ),
        incoming_by_source: breakdown_map(
            s,
            t,
            w,
            EventKind::Damage,
            Direction::Incoming,
            kf_source(),
        ),
        outgoing_by_character: breakdown_map(
            s,
            t,
            w,
            EventKind::Damage,
            Direction::Outgoing,
            kf_character(),
        ),
        incoming_by_character: breakdown_map(
            s,
            t,
            w,
            EventKind::Damage,
            Direction::Incoming,
            kf_character(),
        ),
        combat_actions: actions_map(s, t, w),
    }
}

/// The retention cap: at most this many trailing grid points are computed.
pub open spec fn retention() -> int {
    60
}

/// The window length after clamping away zero.
pub open spec fn clamped_window(w0: int) -> int {
    if w0 < 1 {
        1
    } else {
        w0
    }
}

/// Index of the last grid point: one per second up to the later of the
/// last event and the caller's end time.
pub open spec fn grid_last(s: Seq<EventModel>, end: int) -> int
    recommends
        s.len() > 0,
{
    let m = if s.last().timestamp_ms > end {
        s.last().timestamp_ms
    } else {
        end
    };
    m / 1000
}

/// Index of the first retained grid point.
pub open spec fn grid_first(s: Seq<EventModel>, end: int) -> int {
    if grid_last(s, end) >= retention() - 1 {
        grid_last(s, end) - (retention() - 1)
    } else {
        0
    }
}

/// The whole series the engine owes: empty for no events, else one sample
/// per retained grid point.
pub open spec fn spec_series(s: Seq<EventModel>, w0: int, end: int) -> Seq<SampleModel> {
    let w = clamped_window(w0);
    if s.len() == 0 {
        Seq::empty()
    } else {
        Seq::new(
            (grid_last(s, end) - grid_first(s, end) + 1) as nat,
            |idx: int| spec_sample(s, (grid_first(s, end) + idx) * 1000, w),
        )
    }
}

/// The mathematical image of a sample series.
pub open spec fn series_models(r: Seq<Sample>) -> Seq<SampleModel> {
    r.map(|i: int, smp: Sample| sample_model_of(smp))
}

/// What a distinct pair list names: exactly its keys, each at its value.
proof fn lemma_pairs_to_map_props(pairs: Seq<(String, u64)>)
    requires
        forall|i: int, j: int| 0 <= i < j < pairs.len() ==> pairs[i].0@ != pairs[j].0@,
    ensures
        forall|k: Seq<char>|
            pairs_to_map(pairs).dom().contains(k) <==> exists|i: int|
                0 <= i < pairs.len() && (#[trigger] pairs[i]).0@ == k,
        forall|i: int|
            0 <= i < pairs.len() ==> pairs_to_map(pairs)[(#[trigger] pairs[i]).0@]
                == pairs[i].1 as int,
    decreases pairs.len(),
{
    if pairs.len() > 0 {
        lemma_pairs_to_map_props(pairs.drop_last());
        assert(pairs_to_map(pairs) == pairs_to_map(pairs.drop_last()).insert(
            pairs.last().0@,
            pairs.last().1 as int,
        ));
        assert(forall|j: int|
            0 <= j < pairs.drop_last().len() ==> #[trigger] pairs.drop_last()[j] == pairs[j]);
        assert forall|k: Seq<char>| pairs_to_map(pairs).dom().contains(k) implies exists|i: int|
            0 <= i < pairs.len() && (#[trigger] pairs[i]).0@ == k by {
            if k == pairs.last().0@ {
                assert(pairs[pairs.len() - 1].0@ == k);
            } else {
                let i = choose|i: int|
                    0 <= i < pairs.drop_last().len() && (#[trigger] pairs.drop_last()[i]).0@ == k;
                assert(pairs[i].0@ == k);
            }
        }
        assert forall|k: Seq<char>|
            (exists|i: int| 0 <= i < pairs.len() && (#[trigger] pairs[i]).0@ == k) implies
            pairs_to_map(pairs).dom().contains(k) by {
            let i = choose|i: int| 0 <= i < pairs.len() && (#[trigger] pairs[i]).0@ == k;
            if i + 1 < pairs.len() {
                assert(pairs.drop_last()[i].0@ == k);
            }
        }
        assert forall|i: int|
            0 <= i < pairs.len() implies pairs_to_map(pairs)[(#[trigger] pairs[i]).0@]
            == pairs[i].1 as int by {
            if i + 1 < pairs.len() {
                assert(pairs.drop_last()[i] == pairs[i]);
                assert(pairs[i].0@ != pairs.last().0@);
            }
        }
    }
}

/// What a distinct combat-action list names.
proof fn lemma_actions_to_map_props(list: Seq<CombatAction>)
    requires
        forall|i: int, j: int|
            0 <= i < j < list.len() ==> action_of(list[i]) != action_of(list[j]),
    ensures
        forall|k: AKey|
            actions_to_map(list).dom().contains(k) <==> exists|i: int|
                0 <= i < list.len() && action_of(#[trigger] list[i]) == k,
        forall|i: int|
            0 <= i < list.len() ==> actions_to_map(list)[action_of(#[trigger] list[i])]
                == list[i].rate as int,
    decreases list.len(),
{
    if list.len() > 0 {
        lemma_actions_to_map_props(list.drop_last());
        assert(actions_to_map(list) == actions_to_map(list.drop_last()).insert(
            action_of(list.last()),
            list.last().rate as int,
        ));
        assert(forall|j: int|
            0 <= j < list.drop_last().len() ==> #[trigger] list.drop_last()[j] == list[j]);
        assert forall|k: AKey| actions_to_map(list).dom().contains(k) implies exists|i: int|
            0 <= i < list.len() && action_of(#[trigger] list[i]) == k by {
            if k == action_of(list.last()) {
                assert(action_of(list[list.len() - 1]) == k);
            } else {
                let i = choose|i: int|
                    0 <= i < list.drop_last().len() && action_of(
                        #[trigger] list.drop_last()[i],
                    ) == k;
                assert(action_of(list[i]) == k);
            }
        }
        assert forall|k: AKey|
            (exists|i: int| 0 <= i < list.len() && action_of(#[trigger] list[i]) == k) implies
            actions_to_map(list).dom().contains(k) by {
            let i = choose|i: int| 0 <= i < list.len() && action_of(#[trigger] list[i]) == k;
            if i + 1 < list.len() {
                assert(action_of(list.drop_last()[i]) == k);
            }
        }
        assert forall|i: int|
            0 <= i < list.len() implies actions_to_map(list)[action_of(#[trigger] list[i])]
            == list[i].rate as int by {
            if i + 1 < list.len() {
                assert(list.drop_last()[i] == list[i]);
                assert(action_of(list[i]) != action_of(list.last()));
            }
        }
    }
}

/// Room for one more `u64` on top of a running range sum, within `u128`.
proof fn lemma_sum_room(s: Seq<EventModel>, lo: int, hi: int, f: spec_fn(EventModel) -> int)
    requires
        0 <= lo <= hi <= s.len(),
        s.len() <= u64::MAX,
        forall|i: int| lo <= i < hi ==> 0 <= #[trigger] f(s[i]) <= u64::MAX,
    ensures
        0 <= range_sum(s, lo, hi, f),
        range_sum(s, lo, hi, f) + u64::MAX <= u128::MAX,
{
    lemma_range_sum_bounds(s, lo, hi, f);
    assert((hi - lo) * (u64::MAX as int) + u64::MAX <= u128::MAX) by (nonlinear_arith)
        requires
            0 <= hi - lo <= u64::MAX,
    ;
}

/// A distinct pair list whose rows carry the rates of `get` names exactly
/// the map of positive `get` keys to their rates.
proof fn lemma_pairs_name_map(pairs: Seq<(String, u64)>, get: spec_fn(Seq<char>) -> int, w: int)
    requires
        forall|i: int, j: int| 0 <= i < j < pairs.len() ==> pairs[i].0@ != pairs[j].0@,
        forall|i: int|
            0 <= i < pairs.len() ==> get((#[trigger] pairs[i]).0@) > 0 && pairs[i].1 as int
                == rate_of(get(pairs[i].0@), w),
        forall|k: Seq<char>|
            #[trigger] get(k) > 0 ==> exists|i: int|
                0 <= i < pairs.len() && (#[trigger] pairs[i]).0@ == k,
    ensures
        pairs_to_map(pairs) == Map::new(|k: Seq<char>| get(k) > 0, |k: Seq<char>| rate_of(get(k), w)),
{
    lemma_pairs_to_map_props(pairs);
    let m = Map::new(|k: Seq<char>| get(k) > 0, |k: Seq<char>| rate_of(get(k), w));
    assert forall|k: Seq<char>| pairs_to_map(pairs).dom().contains(k) implies m.dom().contains(k)
        && pairs_to_map(pairs)[k] == m[k] by {
        let i = choose|i: int| 0 <= i < pairs.len() && (#[trigger] pairs[i]).0@ == k;
        assert(get(k) > 0);
        assert(pairs_to_map(pairs)[k] == pairs[i].1 as int);
    }
    assert forall|k: Seq<char>| m.dom().contains(k) implies pairs_to_map(pairs).dom().contains(
        k,
    ) by {
        assert(get(k) > 0);
    }
    assert(pairs_to_map(pairs) =~= m);
}

/// The combat-action version of [`lemma_pairs_name_map`].
proof fn lemma_actions_name_map(list: Seq<CombatAction>, get: spec_fn(AKey) -> int, w: int)
    requires
        forall|i: int, j: int|
            0 <= i < j < list.len() ==> action_of(list[i]) != action_of(list[j]),
        forall|i: int|
            0 <= i < list.len() ==> get(action_of(#[trigger] list[i])) > 0 && list[i].rate as int
                == rate_of(get(action_of(list[i])), w),
        forall|k: AKey|
            #[trigger] get(k) > 0 ==> exists|i: int|
                0 <= i < list.len() && action_of(#[trigger] list[i]) == k,
    ensures
        actions_to_map(list) == Map::new(|k: AKey| get(k) > 0, |k: AKey| rate_of(get(k), w)),
{
    lemma_actions_to_map_props(list);
    let m = Map::new(|k: AKey| get(k) > 0, |k: AKey| rate_of(get(k), w));
    assert forall|k: AKey| actions_to_map(list).dom().contains(k) implies m.dom().contains(k)
        && actions_to_map(list)[k] == m[k] by {
        let i = choose|i: int| 0 <= i < list.len() && action_of(#[trigger] list[i]) == k;
        assert(get(k) > 0);
        assert(actions_to_map(list)[k] == list[i].rate as int);
    }
    assert forall|k: AKey| m.dom().contains(k) implies actions_to_map(list).dom().contains(k) by {
        assert(get(k) > 0);
    }
    assert(actions_to_map(list) =~= m);
}

/// Every event amount is a `u64` value.
pub open spec fn bounded_amounts(s: Seq<EventModel>) -> bool {
    forall|i: int| 0 <= i < s.len() ==> 0 <= (#[trigger] s[i]).amount_milli <= u64::MAX
}

/// The running two-pointer state: one scalar sum per (kind, direction) and
/// one running map per breakdown, all over the index range `[lo, hi)`.
struct Running {
    sum_od: u128,
    sum_id: u128,
    sum_or: u128,
    sum_ir: u128,
    sum_oc: u128,
    sum_ic: u128,
    sum_on: u128,
    sum_in: u128,
    by_weapon: RateMap,
    by_target: RateMap,
    by_source: RateMap,
    out_by_char: RateMap,
    in_by_char: RateMap,
    actions: ActionRateMap,
}

impl Running {
    /// The two-pointer invariant: every running value equals the range sum
    /// of its dimension over `[lo, hi)`.
    spec fn inv(self, s: Seq<EventModel>, lo: int, hi: int) -> bool {
        &&& 0 <= lo <= hi <= s.len()
        &&& self.sum_od as int == range_sum(
            s,
            lo,
            hi,
            sel_amount(EventKind::Damage, Direction::Outgoing),
        )
        &&& self.sum_id as int == range_sum(
            s,
            lo,
            hi,
            sel_amount(EventKind::Damage, Direction::Incoming),
        )
        &&& self.sum_or as int == range_sum(
            s,
            lo,
            hi,
            sel_amount(EventKind::Repair, Direction::Outgoing),
        )
        &&& self.sum_ir as int == range_sum(
            s,
            lo,
            hi,
            sel_amount(EventKind::Repair, Direction::Incoming),
        )
        &&& self.sum_oc as int == range_sum(
            s,
            lo,
            hi,
            sel_amount(EventKind::CapacitorTransfer, Direction::Outgoing),
        )
        &&& self.sum_ic as int == range_sum(
            s,
            lo,
            hi,
            sel_amount(EventKind::CapacitorTransfer, Direction::Incoming),
        )
        &&& self.sum_on as int == range_sum(
            s,
            lo,
            hi,
            sel_amount(EventKind::EnergyDrain, Direction::Outgoing),
        )
        &&& self.sum_in as int == range_sum(
            s,
            lo,
            hi,
            sel_amount(EventKind::EnergyDrain, Direction::Incoming),
        )
        &&& self.by_weapon.wf()
        &&& forall|k: Seq<char>|
            self.by_weapon.spec_get(k) == range_sum(
                s,
                lo,
                hi,
                by_key_sel(EventKind::Damage, Direction::Outgoing, kf_action(), k),
            )
        &&& self.by_target.wf()
        &&& forall|k: Seq<char>|
            self.by_target.spec_get(k) == range_sum(
                s,
                lo,
                hi,
                by_key_sel(EventKind::Damage, Direction::Outgoing, kf_target(), k),
            )
        &&& self.by_source.wf()
        &&& forall|k: Seq<char>|
            self.by_source.spec_get(k) == range_sum(
                s,
                lo,
                hi,
                by_key_sel(EventKind::Damage, Direction::Incoming, kf_source(), k),
            )
        &&& self.out_by_char.wf()
        &&& forall|k: Seq<char>|
            self.out_by_char.spec_get(k) == range_sum(
                s,
                lo,
                hi,
                by_key_sel(EventKind::Damage, Direction::Outgoing, kf_character(), k),
            )
        &&& self.in_by_char.wf()
        &&& forall|k: Seq<char>|
            self.in_by_char.spec_get(k) == range_sum(
                s,
                lo,
                hi,
                by_key_sel(EventKind::Damage, Direction::Incoming, kf_character(), k),
            )
        &&& self.actions.wf()
        &&& forall|k: AKey| self.actions.spec_get(k) == range_sum(s, lo, hi, akey_sel(k))
    }

    /// Empty state at an empty range.
    fn new(Ghost(s): Ghost<Seq<EventModel>>, Ghost(at): Ghost<int>) -> (r: Self)
        requires
            0 <= at <= s.len(),
        ensures
            r.inv(s, at, at),
    {
        let r = Running {
            sum_od: 0,
            sum_id: 0,
            sum_or: 0,
            sum_ir: 0,
            sum_oc: 0,
            sum_ic: 0,
            sum_on: 0,
            sum_in: 0,
            by_weapon: RateMap::new(),
            by_target: RateMap::new(),
            by_source: RateMap::new(),
            out_by_char: RateMap::new(),
            in_by_char: RateMap::new(),
            actions: ActionRateMap::new(),
        };
        r
    }

    /// Let the event at `hi` enter the window.
    fn add_event(
        &mut self,
        e: &CombatEvent,
        Ghost(s): Ghost<Seq<EventModel>>,
        Ghost(lo): Ghost<int>,
        Ghost(hi): Ghost<int>,
    )
        requires
            old(self).inv(s, lo, hi),
            bounded_amounts(s),
            s.len() <= u64::MAX,
            hi < s.len(),
            s[hi] == e@,
        ensures
            final(self).inv(s, lo, hi + 1),
    {
        let ghost em = s[hi];
        let amt: u128 = e.amount_milli as u128;
        if e.amount_milli > 0 {
            if e.kind == EventKind::Damage {
                if e.direction == Direction::Outgoing {
                    proof {
                        lemma_sum_room(
                            s,
                            lo,
                            hi,
                            sel_amount(EventKind::Damage, Direction::Outgoing),
                        );
                        lemma_sum_room(
                            s,
                            lo,
                            hi,
                            by_key_sel(
                                EventKind::Damage,
                                Direction::Outgoing,
                                kf_action(),
                                em.action_name,
                            ),
                        );
                        lemma_sum_room(
                            s,
                            lo,
                            hi,
                            by_key_sel(
                                EventKind::Damage,
                                Direction::Outgoing,
                                kf_target(),
                                em.target,
                            ),
                        );
                        lemma_sum_room(
                            s,
                            lo,
                            hi,
                            by_key_sel(
                                EventKind::Damage,
                                Direction::Outgoing,
                                kf_character(),
                                em.character,
                            ),
                        );
                    }
                    self.sum_od = self.sum_od + amt;
                    self.by_weapon.add(&e.action_name, amt);
                    self.by_target.add(&e.target, amt);
                    self.out_by_char.add(&e.character, amt);
                } else {
                    proof {
                        lemma_sum_room(
                            s,
                            lo,
                            hi,
                            sel_amount(EventKind::Damage, Direction::Incoming),
                        );
                        lemma_sum_room(
                            s,
                            lo,
                            hi,
                            by_key_sel(
                                EventKind::Damage,
                                Direction::Incoming,
                                kf_source(),
                                em.source,
                            ),
                        );
                        lemma_sum_room(
                            s,
                            lo,
                            hi,
                            by_key_sel(
                                EventKind::Damage,
                                Direction::Incoming,
                                kf_character(),
                                em.character,
                            ),
                        );
                    }
                    self.sum_id = self.sum_id + amt;
                    self.by_source.add(&e.source, amt);
                    self.in_by_char.add(&e.character, amt);
                }
            } else if e.kind == EventKind::Repair {
                proof {
                    lemma_sum_room(s, lo, hi, sel_amount(EventKind::Repair, e@.direction));
                }
                if e.direction == Direction::Outgoing {
                    self.sum_or = self.sum_or + amt;
                } else {
                    self.sum_ir = self.sum_ir + amt;
                }
            } else if e.kind == EventKind::CapacitorTransfer {
                proof {
                    lemma_sum_room(
                        s,
                        lo,
                        hi,
                        sel_amount(EventKind::CapacitorTransfer, e@.direction),
                    );
                }
                if e.direction == Direction::Outgoing {
                    self.sum_oc = self.sum_oc + amt;
                } else {
                    self.sum_ic = self.sum_ic + amt;
                }
            } else {
                proof {
                    lemma_sum_room(s, lo, hi, sel_amount(EventKind::EnergyDrain, e@.direction));
                }
                if e.direction == Direction::Outgoing {
                    self.sum_on = self.sum_on + amt;
                } else {
                    self.sum_in = self.sum_in + amt;
                }
            }
            let akey = ActionKey {
                character: e.character.clone(),
                action_name: e.action_name.clone(),
                kind: e.kind,
                direction: e.direction,
            };
            proof {
                lemma_sum_room(s, lo, hi, akey_sel(akey@));
            }
            self.actions.add(&akey, amt);
        }
    }

    /// Let the event at `lo` leave the window.
    fn remove_event(
        &mut self,
        e: &CombatEvent,
        Ghost(s): Ghost<Seq<EventModel>>,
        Ghost(lo): Ghost<int>,
        Ghost(hi): Ghost<int>,
    )
        requires
            old(self).inv(s, lo, hi),
            bounded_amounts(s),
            s.len() <= u64::MAX,
            lo < hi,
            s[lo] == e@,
        ensures
            final(self).inv(s, lo + 1, hi),
    {
        let ghost em = s[lo];
        proof {
            lemma_range_sum_split_first(
                s,
                lo,
                hi,
                sel_amount(EventKind::Damage, Direction::Outgoing),
            );
            lemma_range_sum_split_first(
                s,
                lo,
                hi,
                sel_amount(EventKind::Damage, Direction::Incoming),
            );
            lemma_range_sum_split_first(
                s,
                lo,
                hi,
                sel_amount(EventKind::Repair, Direction::Outgoing),
            );
            lemma_range_sum_split_first(
                s,
                lo,
                hi,
                sel_amount(EventKind::Repair, Direction::Incoming),
            );
            lemma_range_sum_split_first(
                s,
                lo,
                hi,
                sel_amount(EventKind::CapacitorTransfer, Direction::Outgoing),
            );
            lemma_range_sum_split_first(
                s,
                lo,
                hi,
                sel_amount(EventKind::CapacitorTransfer, Direction::Incoming),
            );
            lemma_range_sum_split_first(
                s,
                lo,
                hi,
                sel_amount(EventKind::EnergyDrain, Direction::Outgoing),
            );
            lemma_range_sum_split_first(
                s,
                lo,
                hi,
                sel_amount(EventKind::EnergyDrain, Direction::Incoming),
            );
            lemma_range_sum_bounds(
                s,
                lo + 1,
                hi,
                sel_amount(EventKind::Damage, Direction::Outgoing),
            );
            lemma_range_sum_bounds(
                s,
                lo + 1,
                hi,
                sel_amount(EventKind::Damage, Direction::Incoming),
            );
            lemma_range_sum_bounds(
                s,
                lo + 1,
                hi,
                sel_amount(EventKind::Repair, Direction::Outgoing),
            );
            lemma_range_sum_bounds(
                s,
                lo + 1,
                hi,
                sel_amount(EventKind::Repair, Direction::Incoming),
            );
            lemma_range_sum_bounds(
                s,
                lo + 1,
                hi,
                sel_amount(EventKind::CapacitorTransfer, Direction::Outgoing),
            );
            lemma_range_sum_bounds(
                s,
                lo + 1,
                hi,
                sel_amount(EventKind::CapacitorTransfer, Direction::Incoming),
            );
            lemma_range_sum_bounds(
                s,
                lo + 1,
                hi,
                sel_amount(EventKind::EnergyDrain, Direction::Outgoing),
            );
            lemma_range_sum_bounds(
                s,
                lo + 1,
                hi,
                sel_amount(EventKind::EnergyDrain, Direction::Incoming),
            );
            assert forall|k: Seq<char>|
                range_sum(
                    s,
                    lo,
                    hi,
                    by_key_sel(EventKind::Damage, Direction::Outgoing, kf_action(), k),
                ) == (by_key_sel(EventKind::Damage, Direction::Outgoing, kf_action(), k))(em)
                    + range_sum(
                    s,
                    lo + 1,
                    hi,
                    #[trigger] by_key_sel(EventKind::Damage, Direction::Outgoing, kf_action(), k),
                ) && range_sum(
                    s,
                    lo + 1,
                    hi,
                    by_key_sel(EventKind::Damage, Direction::Outgoing, kf_action(), k),
                ) >= 0 by {
                lemma_range_sum_split_first(
                    s,
                    lo,
                    hi,
                    by_key_sel(EventKind::Damage, Direction::Outgoing, kf_action(), k),
                );
                lemma_range_sum_bounds(
                    s,
                    lo + 1,
                    hi,
                    by_key_sel(EventKind::Damage, Direction::Outgoing, kf_action(), k),
                );
            }
            assert forall|k: Seq<char>|
                range_sum(
                    s,
                    lo,
                    hi,
                    by_key_sel(EventKind::Damage, Direction::Outgoing, kf_target(), k),
                ) == (by_key_sel(EventKind::Damage, Direction::Outgoing, kf_target(), k))(em)
                    + range_sum(
                    s,
                    lo + 1,
                    hi,
                    #[trigger] by_key_sel(EventKind::Damage, Direction::Outgoing, kf_target(), k),
                ) && range_sum(
                    s,
                    lo + 1,
                    hi,
                    by_key_sel(EventKind::Damage, Direction::Outgoing, kf_target(), k),
                ) >= 0 by {
                lemma_range_sum_split_first(
                    s,
                    lo,
                    hi,
                    by_key_sel(EventKind::Damage, Direction::Outgoing, kf_target(), k),
                );
                lemma_range_sum_bounds(
                    s,
                    lo + 1,
                    hi,
                    by_key_sel(EventKind::Damage, Direction::Outgoing, kf_target(), k),
                );
            }
            assert forall|k: Seq<char>|
                range_sum(
                    s,
                    lo,
                    hi,
                    by_key_sel(EventKind::Damage, Direction::Incoming, kf_source(), k),
                ) == (by_key_sel(EventKind::Damage, Direction::Incoming, kf_source(), k))(em)
                    + range_sum(
                    s,
                    lo + 1,
                    hi,
                    #[trigger] by_key_sel(EventKind::Damage, Direction::Incoming, kf_source(), k),
                ) && range_sum(
                    s,
                    lo + 1,
                    hi,
                    by_key_sel(EventKind::Damage, Direction::Incoming, kf_source(), k),
                ) >= 0 by {
                lemma_range_sum_split_first(
                    s,
                    lo,
                    hi,
                    by_key_sel(EventKind::Damage, Direction::Incoming, kf_source(), k),
                );
                lemma_range_sum_bounds(
                    s,
                    lo + 1,
                    hi,
                    by_key_sel(EventKind::Damage, Direction::Incoming, kf_source(), k),
                );
            }
            assert forall|k: Seq<char>|
                range_sum(
                    s,
                    lo,
                    hi,
                    by_key_sel(EventKind::Damage, Direction::Outgoing, kf_character(), k),
                ) == (by_key_sel(EventKind::Damage, Direction::Outgoing, kf_character(), k))(em)
                    + range_sum(
                    s,
                    lo + 1,
                    hi,
                    #[trigger] by_key_sel(
                        EventKind::Damage,
                        Direction::Outgoing,
                        kf_character(),
                        k,
                    ),
                ) && range_sum(
                    s,
                    lo + 1,
                    hi,
                    by_key_sel(EventKind::Damage, Direction::Outgoing, kf_character(), k),
                ) >= 0 by {
                lemma_range_sum_split_first(
                    s,
                    lo,
                    hi,
                    by_key_sel(EventKind::Damage, Direction::Outgoing, kf_character(), k),
                );
                lemma_range_sum_bounds(
                    s,
                    lo + 1,
                    hi,
                    by_key_sel(EventKind::Damage, Direction::Outgoing, kf_character(), k),
                );
            }
            assert forall|k: Seq<char>|
                range_sum(
                    s,
                    lo,
                    hi,
                    by_key_sel(EventKind::Damage, Direction::Incoming, kf_character(), k),
                ) == (by_key_sel(EventKind::Damage, Direction::Incoming, kf_character(), k))(em)
                    + range_sum(
                    s,
                    lo + 1,
                    hi,
                    #[trigger] by_key_sel(
                        EventKind::Damage,
                        Direction::Incoming,
                        kf_character(),
                        k,
                    ),
                ) && range_sum(
                    s,
                    lo + 1,
                    hi,
                    by_key_sel(EventKind::Damage, Direction::Incoming, kf_character(), k),
                ) >= 0 by {
                lemma_range_sum_split_first(
                    s,
                    lo,
                    hi,
                    by_key_sel(EventKind::Damage, Direction::Incoming, kf_character(), k),
                );
                lemma_range_sum_bounds(
                    s,
                    lo + 1,
                    hi,
                    by_key_sel(EventKind::Damage, Direction::Incoming, kf_character(), k),
                );
            }
            assert forall|k: AKey|
                range_sum(s, lo, hi, akey_sel(k)) == (akey_sel(k))(em) + range_sum(
                    s,
                    lo + 1,
                    hi,
                    #[trigger] akey_sel(k),
                ) && range_sum(s, lo + 1, hi, akey_sel(k)) >= 0 by {
                lemma_range_sum_split_first(s, lo, hi, akey_sel(k));
                lemma_range_sum_bounds(s, lo + 1, hi, akey_sel(k));
            }
        }
        let amt: u128 = e.amount_milli as u128;
        if e.amount_milli > 0 {
            if e.kind == EventKind::Damage {
                if e.direction == Direction::Outgoing {
                    self.sum_od = self.sum_od - amt;
                    self.by_weapon.sub(&e.action_name, amt);
                    self.by_target.sub(&e.target, amt);
                    self.out_by_char.sub(&e.character, amt);
                } else {
                    self.sum_id = self.sum_id - amt;
                    self.by_source.sub(&e.source, amt);
                    self.in_by_char.sub(&e.character, amt);
                }
            } else if e.kind == EventKind::Repair {
                if e.direction == Direction::Outgoing {
                    self.sum_or = self.sum_or - amt;
                } else {
                    self.sum_ir = self.sum_ir - amt;
                }
            } else if e.kind == EventKind::CapacitorTransfer {
                if e.direction == Direction::Outgoing {
                    self.sum_oc = self.sum_oc - amt;
                } else {
                    self.sum_ic = self.sum_ic - amt;
                }
            } else {
                if e.direction == Direction::Outgoing {
                    self.sum_on = self.sum_on - amt;
                } else {
                    self.sum_in = self.sum_in - amt;
                }
            }
            let akey = ActionKey {
                character: e.character.clone(),
                action_name: e.action_name.clone(),
                kind: e.kind,
                direction: e.direction,
            };
            self.actions.sub(&akey, amt);
        }
    }

    /// The sample at grid time `time_ms`, once the pointers stand at the
    /// window boundaries.
    fn make_sample(
        &self,
        time_ms: u64,
        window_ms: u64,
        Ghost(s): Ghost<Seq<EventModel>>,
        Ghost(lo): Ghost<int>,
        Ghost(hi): Ghost<int>,
    ) -> (r: Sample)
        requires
            self.inv(s, lo, hi),
            window_ms >= 1,
            forall|i: int|
                0 <= i < lo ==> (#[trigger] s[i]).timestamp_ms < time_ms - window_ms,
            forall|i: int|
                lo <= i < hi ==> time_ms - window_ms <= (#[trigger] s[i]).timestamp_ms <= time_ms,
            forall|i: int| hi <= i < s.len() ==> (#[trigger] s[i]).timestamp_ms > time_ms,
        ensures
            sample_model_of(r) == spec_sample(s, time_ms as int, window_ms as int),
            sample_distinct(r),
    {
        let ghost t = time_ms as int;
        let ghost w = window_ms as int;
        proof {
            lemma_window_range(s, lo, hi, t, w, sel_amount(EventKind::Damage, Direction::Outgoing));
            lemma_window_range(s, lo, hi, t, w, sel_amount(EventKind::Damage, Direction::Incoming));
            lemma_window_range(s, lo, hi, t, w, sel_amount(EventKind::Repair, Direction::Outgoing));
            lemma_window_range(s, lo, hi, t, w, sel_amount(EventKind::Repair, Direction::Incoming));
            lemma_window_range(
                s,
                lo,
                hi,
                t,
                w,
                sel_amount(EventKind::CapacitorTransfer, Direction::Outgoing),
            );
            lemma_window_range(
                s,
                lo,
                hi,
                t,
                w,
                sel_amount(EventKind::CapacitorTransfer, Direction::Incoming),
            );
            lemma_window_range(
                s,
                lo,
                hi,
                t,
                w,
                sel_amount(EventKind::EnergyDrain, Direction::Outgoing),
            );
            lemma_window_range(
                s,
                lo,
                hi,
                t,
                w,
                sel_amount(EventKind::EnergyDrain, Direction::Incoming),
            );
            assert forall|k: Seq<char>|
                self.by_weapon.spec_get(k) == #[trigger] wkey_sum(
                    s,
                    t,
                    w,
                    EventKind::Damage,
                    Direction::Outgoing,
                    kf_action(),
                    k,
                ) by {
                lemma_window_range(
                    s,
                    lo,
                    hi,
                    t,
                    w,
                    by_key_sel(EventKind::Damage, Direction::Outgoing, kf_action(), k),
                );
            }
            assert forall|k: Seq<char>|
                self.by_target.spec_get(k) == #[trigger] wkey_sum(
                    s,
                    t,
                    w,
                    EventKind::Damage,
                    Direction::Outgoing,
                    kf_target(),
                    k,
                ) by {
                lemma_window_range(
                    s,
                    lo,
                    hi,
                    t,
                    w,
                    by_key_sel(EventKind::Damage, Direction::Outgoing, kf_target(), k),
                );
            }
            assert forall|k: Seq<char>|
                self.by_source.spec_get(k) == #[trigger] wkey_sum(
                    s,
                    t,
                    w,
                    EventKind::Damage,
                    Direction::Incoming,
                    kf_source(),
                    k,
                ) by {
                lemma_window_range(
                    s,
                    lo,
                    hi,
                    t,
                    w,
                    by_key_sel(EventKind::Damage, Direction::Incoming, kf_source(), k),
                );
            }
            assert forall|k: Seq<char>|
                self.out_by_char.spec_get(k) == #[trigger] wkey_sum(
                    s,
                    t,
                    w,
                    EventKind::Damage,
                    Direction::Outgoing,
                    kf_character(),
                    k,
                ) by {
                lemma_window_range(
                    s,
                    lo,
                    hi,
                    t,
                    w,
                    by_key_sel(EventKind::Damage, Direction::Outgoing, kf_character(), k),
                );
            }
            assert forall|k: Seq<char>|
                self.in_by_char.spec_get(k) == #[trigger] wkey_sum(
                    s,
                    t,
                    w,
                    EventKind::Damage,
                    Direction::Incoming,
                    kf_character(),
                    k,
                ) by {
                lemma_window_range(
                    s,
                    lo,
                    hi,
                    t,
                    w,
                    by_key_sel(EventKind::Damage, Direction::Incoming, kf_character(), k),
                );
            }
            assert forall|k: AKey|
                self.actions.spec_get(k) == #[trigger] waction_sum(s, t, w, k) by {
                lemma_window_range(s, lo, hi, t, w, akey_sel(k));
            }
        }
        let pw = self.by_weapon.snapshot(window_ms);
        let pt = self.by_target.snapshot(window_ms);
        let ps = self.by_source.snapshot(window_ms);
        let poc = self.out_by_char.snapshot(window_ms);
        let pic = self.in_by_char.snapshot(window_ms);
        let pa = self.actions.snapshot(window_ms);
        proof {
            lemma_pairs_name_map(
                pw@,
                |k: Seq<char>|
                    wkey_sum(s, t, w, EventKind::Damage, Direction::Outgoing, kf_action(), k),
                w,
            );
            lemma_pairs_name_map(
                pt@,
                |k: Seq<char>|
                    wkey_sum(s, t, w, EventKind::Damage, Direction::Outgoing, kf_target(), k),
                w,
            );
            lemma_pairs_name_map(
                ps@,
                |k: Seq<char>|
                    wkey_sum(s, t, w, EventKind::Damage, Direction::Incoming, kf_source(), k),
                w,
            );
            lemma_pairs_name_map(
                poc@,
                |k: Seq<char>|
                    wkey_sum(s, t, w, EventKind::Damage, Direction::Outgoing, kf_character(), k),
                w,
            );
            lemma_pairs_name_map(
                pic@,
                |k: Seq<char>|
                    wkey_sum(s, t, w, EventKind::Damage, Direction::Incoming, kf_character(), k),
                w,
            );
            lemma_actions_name_map(pa@, |k: AKey| waction_sum(s, t, w, k), w);
        }
        let r = Sample {
            time_ms,
            window_ms,
            outgoing_dps: rate_of_sum(self.sum_od, window_ms),
            incoming_dps: rate_of_sum(self.sum_id, window_ms),
            outgoing_repair: rate_of_sum(self.sum_or, window_ms),
            incoming_repair: rate_of_sum(self.sum_ir, window_ms),
            outgoing_capacitor: rate_of_sum(self.sum_oc, window_ms),
            incoming_capacitor: rate_of_sum(self.sum_ic, window_ms),
            outgoing_drain: rate_of_sum(self.sum_on, window_ms),
            incoming_drain: rate_of_sum(self.sum_in, window_ms),
            outgoing_by_weapon: pw,
            outgoing_by_target: pt,
            incoming_by_source: ps,
            outgoing_by_character: poc,
            incoming_by_character: pic,
            combat_actions: pa,
        };
        proof {
            assert(sample_model_of(r) =~= spec_sample(s, t, w)) by {
                assert(breakdown_map(s, t, w, EventKind::Damage, Direction::Outgoing, kf_action())
                    =~= Map::new(
                    |k: Seq<char>|
                        wkey_sum(s, t, w, EventKind::Damage, Direction::Outgoing, kf_action(), k)
                            > 0,
                    |k: Seq<char>|
                        rate_of(
                            wkey_sum(
                                s,
                                t,
                                w,
                                EventKind::Damage,
                                Direction::Outgoing,
                                kf_action(),
                                k,
                            ),
                            w,
                        ),
                ));
                assert(breakdown_map(s, t, w, EventKind::Damage, Direction::Outgoing, kf_target())
                    =~= Map::new(
                    |k: Seq<char>|
                        wkey_sum(s, t, w, EventKind::Damage, Direction::Outgoing, kf_target(), k)
                            > 0,
                    |k: Seq<char>|
                        rate_of(
                            wkey_sum(
                                s,
                                t,
                                w,
                                EventKind::Damage,
                                Direction::Outgoing,
                                kf_target(),
                                k,
                            ),
                            w,
                        ),
                ));
                assert(breakdown_map(s, t, w, EventKind::Damage, Direction::Incoming, kf_source())
                    =~= Map::new(
                    |k: Seq<char>|
                        wkey_sum(s, t, w, EventKind::Damage, Direction::Incoming, kf_source(), k)
                            > 0,
                    |k: Seq<char>|
                        rate_of(
                            wkey_sum(
                                s,
                                t,
                                w,
                                EventKind::Damage,
                                Direction::Incoming,
                                kf_source(),
                                k,
                            ),
                            w,
                        ),
                ));
                assert(breakdown_map(
                    s,
                    t,
                    w,
                    EventKind::Damage,
                    Direction::Outgoing,
                    kf_character(),
                ) =~= Map::new(
                    |k: Seq<char>|
                        wkey_sum(
                            s,
                            t,
                            w,
                            EventKind::Damage,
                            Direction::Outgoing,
                            kf_character(),
                            k,
                        ) > 0,
                    |k: Seq<char>|
                        rate_of(
                            wkey_sum(
                                s,
                                t,
                                w,
                                EventKind::Damage,
                                Direction::Outgoing,
                                kf_character(),
                                k,
                            ),
                            w,
                        ),
                ));
                assert(breakdown_map(
                    s,
                    t,
                    w,
                    EventKind::Damage,
                    Direction::Incoming,
                    kf_character(),
                ) =~= Map::new(
                    |k: Seq<char>|
                        wkey_sum(
                            s,
                            t,
                            w,
                            EventKind::Damage,
                            Direction::Incoming,
                            kf_character(),
                            k,
                        ) > 0,
                    |k: Seq<char>|
                        rate_of(
                            wkey_sum(
                                s,
                                t,
                                w,
                                EventKind::Damage,
                                Direction::Incoming,
                                kf_character(),
                                k,
                            ),
                            w,
                        ),
                ));
                assert(actions_map(s, t, w) =~= Map::new(
                    |k: AKey| waction_sum(s, t, w, k) > 0,
                    |k: AKey| rate_of(waction_sum(s, t, w, k), w),
                ));
            }
        }
        r
    }
}

/// Compute the sample series over sorted events: a one-second grid up to
/// the later of the last event and `end_ms`, capped at the most recent
/// [`retention`] points, each sample per [`spec_sample`], by one amortized
/// two-pointer pass.
pub fn compute_dps_series(events: &Vec<CombatEvent>, window_ms: u64, end_ms: u64) -> (r: Vec<
    Sample,
>)
    requires
        sorted_by_ts(events@),
    ensures
        series_models(r@) == spec_series(models(events@), window_ms as int, end_ms as int),
        forall|idx: int| 0 <= idx < r@.len() ==> #[trigger] sample_distinct(r@[idx]),
{
    let ghost ms = models(events@);
    proof {
        assert(forall|i: int| 0 <= i < ms.len() ==> #[trigger] ms[i] == events@[i]@);
        assert(bounded_amounts(ms));
    }
    let w: u64 = if window_ms < 1 {
        1
    } else {
        window_ms
    };
    let n = events.len();
    let mut out: Vec<Sample> = Vec::new();
    if n == 0 {
        proof {
            assert(series_models(out@) =~= spec_series(ms, window_ms as int, end_ms as int));
        }
        return out;
    }
    let last_ts = events[n - 1].timestamp_ms;
    let maxm: u64 = if last_ts > end_ms {
        last_ts
    } else {
        end_ms
    };
    let last_idx: u64 = maxm / 1000;
    let first_idx: u64 = if last_idx >= 59 {
        last_idx - 59
    } else {
        0
    };
    proof {
        assert(ms[n - 1] == events@[n - 1]@);
        assert(last_idx as int == grid_last(ms, end_ms as int));
        assert(first_idx as int == grid_first(ms, end_ms as int));
        assert(last_idx * 1000 <= maxm) by (nonlinear_arith)
            requires
                last_idx == maxm / 1000,
                maxm >= 0,
        ;
    }
    let mut run = Running::new(Ghost(ms), Ghost(0));
    let mut lo: usize = 0;
    let mut hi: usize = 0;
    let mut g: u64 = first_idx;
    while g <= last_idx
        invariant
            sorted_by_ts(events@),
            ms == models(events@),
            forall|i: int| 0 <= i < ms.len() ==> #[trigger] ms[i] == events@[i]@,
            bounded_amounts(ms),
            n == events@.len(),
            1 <= n <= u64::MAX,
            ms.len() == n,
            w >= 1,
            w as int == clamped_window(window_ms as int),
            last_idx as int == grid_last(ms, end_ms as int),
            first_idx as int == grid_first(ms, end_ms as int),
            last_idx * 1000 <= maxm,
            first_idx <= g <= last_idx + 1,
            lo <= hi <= n,
            run.inv(ms, lo as int, hi as int),
            forall|i: int| 0 <= i < hi ==> (#[trigger] ms[i]).timestamp_ms <= g * 1000,
            forall|i: int| 0 <= i < lo ==> (#[trigger] ms[i]).timestamp_ms < g * 1000 - w,
            out@.len() == g - first_idx,
            forall|idx: int|
                0 <= idx < out@.len() ==> sample_model_of(#[trigger] out@[idx]) == spec_sample(
                    ms,
                    (first_idx + idx) * 1000,
                    w as int,
                ),
            forall|idx: int| 0 <= idx < out@.len() ==> #[trigger] sample_distinct(out@[idx]),
        decreases last_idx + 1 - g,
    {
        let t: u64 = g * 1000;
        while hi < n && events[hi].timestamp_ms <= t
            invariant
                sorted_by_ts(events@),
                ms == models(events@),
                forall|i: int| 0 <= i < ms.len() ==> #[trigger] ms[i] == events@[i]@,
                bounded_amounts(ms),
                n == events@.len(),
                1 <= n <= u64::MAX,
                ms.len() == n,
                t == g * 1000,
                w >= 1,
                lo <= hi <= n,
                run.inv(ms, lo as int, hi as int),
                forall|i: int| 0 <= i < hi ==> (#[trigger] ms[i]).timestamp_ms <= t,
                forall|i: int| 0 <= i < lo ==> (#[trigger] ms[i]).timestamp_ms < t - w,
            decreases n - hi,
        {
            let e = &events[hi];
            run.add_event(e, Ghost(ms), Ghost(lo as int), Ghost(hi as int));
            hi += 1;
        }
        proof {
            assert forall|i: int| hi <= i < n implies (#[trigger] ms[i]).timestamp_ms > t by {
                assert(events@[hi as int].timestamp_ms <= events@[i].timestamp_ms);
                assert(ms[hi as int].timestamp_ms > t);
            }
        }
        while lo < hi && (events[lo].timestamp_ms as u128) + (w as u128) < (t as u128)
            invariant
                sorted_by_ts(events@),
                ms == models(events@),
                forall|i: int| 0 <= i < ms.len() ==> #[trigger] ms[i] == events@[i]@,
                bounded_amounts(ms),
                n == events@.len(),
                1 <= n <= u64::MAX,
                ms.len() == n,
                t == g * 1000,
                w >= 1,
                lo <= hi <= n,
                run.inv(ms, lo as int, hi as int),
                forall|i: int| 0 <= i < hi ==> (#[trigger] ms[i]).timestamp_ms <= t,
                forall|i: int| hi <= i < n ==> (#[trigger] ms[i]).timestamp_ms > t,
                forall|i: int| 0 <= i < lo ==> (#[trigger] ms[i]).timestamp_ms < t - w,
            decreases hi - lo,
        {
            let e = &events[lo];
            run.remove_event(e, Ghost(ms), Ghost(lo as int), Ghost(hi as int));
            lo += 1;
        }
        proof {
            assert forall|i: int| lo <= i < hi implies t - w <= (#[trigger] ms[i]).timestamp_ms
                <= t by {
                assert(events@[lo as int].timestamp_ms <= events@[i].timestamp_ms);
                assert(ms[lo as int].timestamp_ms >= t - w);
            }
        }
        let smp = run.make_sample(t, w, Ghost(ms), Ghost(lo as int), Ghost(hi as int));
        out.push(smp);
        g += 1;
    }
    proof {
        assert(series_models(out@) =~= spec_series(ms, window_ms as int, end_ms as int));
    }
    out
}

/// A grid point past which every event has fallen out of the window shows
/// zero for every rate, and every breakdown is empty.
pub proof fn lemma_window_empty(s: Seq<EventModel>, t: int, w: int)
    requires
        w >= 1,
        forall|i: int| 0 <= i < s.len() ==> (#[trigger] s[i]).timestamp_ms < t - w,
    ensures
        ({
            let smp = spec_sample(s, t, w);
            &&& smp.outgoing_dps == 0
            &&& smp.incoming_dps == 0
            &&& smp.outgoing_repair == 0
            &&& smp.incoming_repair == 0
            &&& smp.outgoing_capacitor == 0
            &&& smp.incoming_capacitor == 0
            &&& smp.outgoing_drain == 0
            &&& smp.incoming_drain == 0
            &&& smp.outgoing_by_weapon.dom() =~= Set::<Seq<char>>::empty()
            &&& smp.outgoing_by_target.dom() =~= Set::<Seq<char>>::empty()
            &&& smp.incoming_by_source.dom() =~= Set::<Seq<char>>::empty()
            &&& smp.outgoing_by_character.dom() =~= Set::<Seq<char>>::empty()
            &&& smp.incoming_by_character.dom() =~= Set::<Seq<char>>::empty()
            &&& smp.combat_actions.dom() =~= Set::<AKey>::empty()
        }),
{
    let n = s.len() as int;
    assert forall|kind: EventKind, dir: Direction| #[trigger] wsum(s, t, w, kind, dir) == 0 by {
        lemma_range_sum_zero(s, 0, n, windowed(sel_amount(kind, dir), t, w));
    }
    assert(rate_of(0, w) == 0);
    assert forall|kind: EventKind, dir: Direction, keyf: spec_fn(EventModel) -> Seq<char>, k: Seq<
        char,
    >| #[trigger] wkey_sum(s, t, w, kind, dir, keyf, k) == 0 by {
        lemma_range_sum_zero(s, 0, n, windowed(by_key_sel(kind, dir, keyf, k), t, w));
    }
    assert forall|k: AKey| #[trigger] waction_sum(s, t, w, k) == 0 by {
        lemma_range_sum_zero(s, 0, n, windowed(akey_sel(k), t, w));
    }
}

/// The series is a function of the events, the window and the end time:
/// two computations over the same state name the same samples.
pub proof fn lemma_series_deterministic(
    r1: Seq<Sample>,
    r2: Seq<Sample>,
    s: Seq<EventModel>,
    w0: int,
    end: int,
)
    requires
        series_models(r1) == spec_series(s, w0, end),
        series_models(r2) == spec_series(s, w0, end),
    ensures
        series_models(r1) == series_models(r2),
{
}

} // verus!
