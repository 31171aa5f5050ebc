//! The event store: an append-only buffer of combat events with a dirty
//! flag, re-sorted by timestamp before analysis.

use vstd::multiset::Multiset;
use vstd::prelude::*;

use crate::analysis::compute_dps_series;
use crate::analysis::models;
use crate::analysis::range_sum;
use crate::analysis::sel_amount;
use crate::analysis::series_models;
use crate::analysis::sorted_by_ts;
use crate::analysis::spec_series;
use crate::analysis::lemma_range_sum_bounds;
use crate::model::CombatEvent;
use crate::model::Direction;
use crate::model::EventKind;
use crate::model::Sample;

verus! {

/// Sort events by timestamp: selection of the minimum, preserving the
/// collection of events exactly.
fn sort_events(v: &mut Vec<CombatEvent>)
    ensures
        sorted_by_ts(final(v)@),
        final(v)@.to_multiset() == old(v)@.to_multiset(),
{
    broadcast use vstd::multiset::group_multiset_axioms;

    let mut out: Vec<CombatEvent> = Vec::new();
    proof {
        out@.to_multiset_ensures();
        vstd::multiset::lemma_multiset_empty_len(out@.to_multiset());
        assert(out@.to_multiset().add(v@.to_multiset()) =~= v@.to_multiset());
    }
    while v.len() > 0
        invariant
            out@.to_multiset().add(v@.to_multiset()) =~= old(v)@.to_multiset(),
            sorted_by_ts(out@),
            forall|a: int, b: int|
                0 <= a < out@.len() && 0 <= b < v@.len() ==> (#[trigger] out@[a]).timestamp_ms <= (
                #[trigger] v@[b]).timestamp_ms,
        decreases v@.len(),
    {
        let n = v.len();
        let mut m: usize = 0;
        let mut i: usize = 1;
        while i < n
            invariant
                n == v@.len(),
                m < i <= n,
                forall|j: int|
                    0 <= j < i ==> (#[trigger] v@[j]).timestamp_ms >= v@[m as int].timestamp_ms,
            decreases n - i,
        {
            if v[i].timestamp_ms < v[m].timestamp_ms {
                m = i;
            }
            i += 1;
        }
        let ghost vs0 = v@;
        let ghost out0 = out@;
        let x = v.remove(m);
        out.push(x);
        proof {
            out0.to_multiset_ensures();
            vs0.to_multiset_ensures();
            assert(out0.push(x).to_multiset() =~= out0.to_multiset().insert(x));
            assert(vs0.remove(m as int).to_multiset() =~= vs0.to_multiset().remove(vs0[m as int]));
            assert(vs0.to_multiset().count(x) > 0) by {
                assert(vs0[m as int] == x);
                assert(vs0.contains(x));
            }
            assert forall|y: CombatEvent|
                out@.to_multiset().add(v@.to_multiset()).count(y) == out0.to_multiset().add(
                    vs0.to_multiset(),
                ).count(y) by {}
            assert(out@.to_multiset().add(v@.to_multiset()) =~= out0.to_multiset().add(
                vs0.to_multiset(),
            ));
            assert(forall|b: int|
                0 <= b < v@.len() ==> (#[trigger] v@[b]).timestamp_ms >= x.timestamp_ms);
        }
    }
    proof {
        v@.to_multiset_ensures();
        vstd::multiset::lemma_multiset_empty_len(v@.to_multiset());
        assert(v@.to_multiset() =~= Multiset::empty());
        assert(out@.to_multiset().add(v@.to_multiset()) =~= out@.to_multiset());
    }
    *v = out;
}

/// The sliding-window analytics engine's event store.
pub struct EngineState {
    events: Vec<CombatEvent>,
    sorted: bool,
}

impl EngineState {
    /// The stored events, in their current order.
    pub closed spec fn events_seq(self) -> Seq<CombatEvent> {
        self.events@
    }

    /// Whether the store knows its buffer to be in timestamp order.
    pub closed spec fn sorted_flag(self) -> bool {
        self.sorted
    }

    /// The store's invariant: a set sorted flag is honest.
    pub closed spec fn wf(self) -> bool {
        self.sorted ==> sorted_by_ts(self.events@)
    }

    /// An empty store.
    pub fn new() -> (r: Self)
        ensures
            r.wf(),
            r.events_seq() == Seq::<CombatEvent>::empty(),
            r.sorted_flag(),
    {
        let r = EngineState { events: Vec::new(), sorted: true };
        proof {
            assert(r.events_seq() =~= Seq::<CombatEvent>::empty());
        }
        r
    }

    /// Append one event and mark the buffer dirty.
    pub fn push_event(&mut self, event: CombatEvent)
        requires
            old(self).wf(),
        ensures
            final(self).wf(),
            final(self).events_seq() == old(self).events_seq().push(event),
            !final(self).sorted_flag(),
    {
        self.events.push(event);
        self.sorted = false;
    }

    /// Append a batch of events and mark the buffer dirty.
    pub fn push_events(&mut self, mut new_events: Vec<CombatEvent>)
        requires
            old(self).wf(),
        ensures
            final(self).wf(),
            final(self).events_seq() == old(self).events_seq() + new_events@,
            new_events@.len() > 0 ==> !final(self).sorted_flag(),
            new_events@.len() == 0 ==> *final(self) == *old(self),
    {
        if new_events.len() == 0 {
            proof {
                assert(final(self).events_seq() =~= old(self).events_seq() + new_events@);
            }
            return ;
        }
        self.events.append(&mut new_events);
        self.sorted = false;
    }

    /// The stored events.
    pub fn events(&self) -> (r: &Vec<CombatEvent>)
        ensures
            r@ == self.events_seq(),
    {
        &self.events
    }

    /// Total outgoing damage over the whole buffer, in milli-units.
    pub fn total_damage(&self) -> (r: u128)
        ensures
            r as int == range_sum(
                models(self.events_seq()),
                0,
                self.events_seq().len() as int,
                sel_amount(EventKind::Damage, Direction::Outgoing),
            ),
    {
        let ghost ms = models(self.events@);
        proof {
            assert(forall|i: int| 0 <= i < ms.len() ==> #[trigger] ms[i] == self.events@[i]@);
        }
        let n = self.events.len();
        let mut sum: u128 = 0;
        let mut i: usize = 0;
        while i < n
            invariant
                n == self.events@.len(),
                ms == models(self.events@),
                ms.len() == n,
                forall|i2: int| 0 <= i2 < ms.len() ==> #[trigger] ms[i2] == self.events@[i2]@,
                i <= n,
                sum as int == range_sum(
                    ms,
                    0,
                    i as int,
                    sel_amount(EventKind::Damage, Direction::Outgoing),
                ),
            decreases n - i,
        {
            let e = &self.events[i];
            proof {
                lemma_range_sum_bounds(
                    ms,
                    0,
                    i as int,
                    sel_amount(EventKind::Damage, Direction::Outgoing),
                );
                assert((i as int) * (u64::MAX as int) + u64::MAX <= u128::MAX) by (nonlinear_arith)
                    requires
                        0 <= i as int <= u64::MAX,
                ;
            }
            if e.kind == EventKind::Damage && e.direction == Direction::Outgoing {
                sum = sum + e.amount_milli as u128;
            }
            i += 1;
        }
        sum
    }

    /// Re-sort the buffer if dirty, then compute the sample series, per
    /// [`spec_series`]. The set of stored events never changes; their order
    /// does only when the buffer was dirty.
    pub fn dps_series(&mut self, window_ms: u64, end_ms: u64) -> (r: Vec<Sample>)
        requires
            old(self).wf(),
        ensures
            final(self).wf(),
            final(self).sorted_flag(),
            sorted_by_ts(final(self).events_seq()),
            final(self).events_seq().to_multiset() == old(self).events_seq().to_multiset(),
            old(self).sorted_flag() ==> *final(self) == *old(self),
            series_models(r@) == spec_series(
                models(final(self).events_seq()),
                window_ms as int,
                end_ms as int,
            ),
            forall|idx: int|
                0 <= idx < r@.len() ==> #[trigger] crate::analysis::sample_distinct(r@[idx]),
    {
        if !self.sorted {
            sort_events(&mut self.events);
            self.sorted = true;
        }
        compute_dps_series(&self.events, window_ms, end_ms)
    }
}

} // verus!
