//! Running per-key sums for the sliding-window breakdowns.
//!
//! A map holds only keys with a positive running sum; removal of the last
//! contribution removes the key. Sums are `u128`, so that adding any number
//! of `u64` magnitudes cannot overflow.

use vstd::prelude::*;

use crate::model::action_of;
use crate::model::ActionKey;
use crate::model::CombatAction;
use crate::model::Direction;
use crate::model::EventKind;

verus! {

/// Rate of a window sum: milli-units per second, saturated at `u64::MAX`.
pub open spec fn rate_of(sum: int, window_ms: int) -> int {
    if sum * 1000 / window_ms > u64::MAX {
        u64::MAX as int
    } else {
        sum * 1000 / window_ms
    }
}

/// The rate of a window sum, per [`rate_of`].
pub fn rate_of_sum(sum: u128, window_ms: u64) -> (r: u64)
    requires
        window_ms >= 1,
    ensures
        r as int == rate_of(sum as int, window_ms as int),
{
    match sum.checked_mul(1000) {
        Some(p) => {
            let q = p / (window_ms as u128);
            if q > u64::MAX as u128 {
                u64::MAX
            } else {
                q as u64
            }
        },
        None => {
            proof {
                assert(sum * 1000 / (window_ms as int) > u64::MAX) by (nonlinear_arith)
                    requires
                        sum * 1000 > u128::MAX,
                        1 <= window_ms <= u64::MAX,
                ;
            }
            u64::MAX
        },
    }
}

/// Sum of the values of all entries with the given key.
pub open spec fn entries_get(es: Seq<(String, u128)>, k: Seq<char>) -> int
    decreases es.len(),
{
    if es.len() == 0 {
        0
    } else {
        entries_get(es.drop_last(), k) + (if es.last().0@ == k {
            es.last().1 as int
        } else {
            0
        })
    }
}

/// Entry keys are distinct and every value is positive.
pub open spec fn entries_wf(es: Seq<(String, u128)>) -> bool {
    &&& forall|i: int, j: int| 0 <= i < j < es.len() ==> es[i].0@ != es[j].0@
    &&& forall|i: int| 0 <= i < es.len() ==> (#[trigger] es[i]).1 > 0
}

/// With distinct keys, the sum for the key at `i` is that entry's value.
proof fn lemma_get_at(es: Seq<(String, u128)>, i: int)
    requires
        entries_wf(es),
        0 <= i < es.len(),
    ensures
        entries_get(es, es[i].0@) == es[i].1,
    decreases es.len(),
{
    if i + 1 == es.len() {
        lemma_get_absent(es.drop_last(), es[i].0@);
    } else {
        lemma_get_at(es.drop_last(), i);
        assert(es.drop_last()[i] == es[i]);
    }
}

/// A key that matches no entry sums to zero.
proof fn lemma_get_absent(es: Seq<(String, u128)>, k: Seq<char>)
    requires
        forall|i: int| 0 <= i < es.len() ==> (#[trigger] es[i]).0@ != k,
    ensures
        entries_get(es, k) == 0,
    decreases es.len(),
{
    if es.len() > 0 {
        lemma_get_absent(es.drop_last(), k);
    }
}

/// A positive sum names a matching entry.
proof fn lemma_get_pos_witness(es: Seq<(String, u128)>, k: Seq<char>)
    requires
        entries_get(es, k) > 0,
    ensures
        exists|i: int| 0 <= i < es.len() && (#[trigger] es[i]).0@ == k,
    decreases es.len(),
{
    if es.last().0@ == k {
        assert(es[es.len() - 1].0@ == k);
    } else {
        lemma_get_pos_witness(es.drop_last(), k);
        let i = choose|i: int| 0 <= i < es.drop_last().len() && (#[trigger] es.drop_last()[i]).0@
            == k;
        assert(es[i].0@ == k);
    }
}

/// How updating one entry's value moves every key's sum.
proof fn lemma_get_update(es: Seq<(String, u128)>, i: int, v: u128, k: Seq<char>)
    requires
        0 <= i < es.len(),
    ensures
        entries_get(es.update(i, (es[i].0, v)), k) == entries_get(es, k) + (if es[i].0@ == k {
            v as int - es[i].1 as int
        } else {
            0
        }),
    decreases es.len(),
{
    let es2 = es.update(i, (es[i].0, v));
    if i + 1 == es.len() {
        assert(es2.drop_last() =~= es.drop_last());
    } else {
        assert(es2.drop_last() =~= es.drop_last().update(i, (es[i].0, v)));
        assert(es.drop_last()[i] == es[i]);
        lemma_get_update(es.drop_last(), i, v, k);
        assert(es2.last() == es.last());
    }
}

/// How removing one entry moves every key's sum.
proof fn lemma_get_remove(es: Seq<(String, u128)>, i: int, k: Seq<char>)
    requires
        0 <= i < es.len(),
    ensures
        entries_get(es.remove(i), k) == entries_get(es, k) - (if es[i].0@ == k {
            es[i].1 as int
        } else {
            0
        }),
    decreases es.len(),
{
    let es2 = es.remove(i);
    if i + 1 == es.len() {
        assert(es2 =~= es.drop_last());
    } else {
        assert(es2.drop_last() =~= es.drop_last().remove(i));
        assert(es.drop_last()[i] == es[i]);
        lemma_get_remove(es.drop_last(), i, k);
        assert(es2.last() == es.last());
    }
}

/// A running per-key sum map with text keys.
pub struct RateMap {
    entries: Vec<(String, u128)>,
}

impl RateMap {
    /// The running sum for a key; zero when the key is absent.
    pub closed spec fn spec_get(self, k: Seq<char>) -> int {
        entries_get(self.entries@, k)
    }

    /// Internal well-formedness: distinct keys, positive values.
    pub closed spec fn wf(self) -> bool {
        entries_wf(self.entries@)
    }

    /// An empty map: every sum is zero.
    pub fn new() -> (r: Self)
        ensures
            r.wf(),
            forall|k: Seq<char>| r.spec_get(k) == 0,
    {
        RateMap { entries: Vec::new() }
    }

    /// Add `amount` to the key's running sum.
    pub fn add(&mut self, k: &String, amount: u128)
        requires
            old(self).wf(),
            amount > 0,
            old(self).spec_get(k@) + amount <= u128::MAX,
        ensures
            final(self).wf(),
            forall|k2: Seq<char>|
                final(self).spec_get(k2) == old(self).spec_get(k2) + (if k2 == k@ {
                    amount as int
                } else {
                    0
                }),
    {
        let n = self.entries.len();
        let mut i: usize = 0;
        while i < n
            invariant
                old(self).wf(),
                amount > 0,
                old(self).spec_get(k@) + amount <= u128::MAX,
                n == self.entries@.len(),
                i <= n,
                *self == *old(self),
                forall|j: int| 0 <= j < i ==> (#[trigger] self.entries@[j]).0@ != k@,
            decreases n - i,
        {
            if self.entries[i].0 == *k {
                proof {
                    lemma_get_at(self.entries@, i as int);
                }
                let v = self.entries[i].1;
                let key = self.entries[i].0.clone();
                proof {
                    lemma_get_update(self.entries@, i as int, (v + amount) as u128, k@);
                    assert forall|k2: Seq<char>| k2 != k@ implies entries_get(
                        self.entries@.update(i as int, (self.entries@[i as int].0, (v
                            + amount) as u128)),
                        k2,
                    ) == entries_get(self.entries@, k2) by {
                        lemma_get_update(self.entries@, i as int, (v + amount) as u128, k2);
                    }
                }
                let ghost es0 = self.entries@;
                self.entries.remove(i);
                self.entries.insert(i, (key, v + amount));
                proof {
                    assert(self.entries@ =~= es0.update(i as int, (es0[i as int].0, (v
                        + amount) as u128)));
                    assert(entries_wf(self.entries@)) by {
                        assert(forall|j: int|
                            0 <= j < es0.len() && j != i ==> self.entries@[j] == es0[j]);
                        assert(self.entries@[i as int].0@ == es0[i as int].0@);
                    }
                }
                return ;
            }
            i += 1;
        }
        proof {
            lemma_get_absent(self.entries@, k@);
        }
        let ghost es0 = self.entries@;
        self.entries.push((k.clone(), amount));
        proof {
            assert(self.entries@.drop_last() =~= es0);
            assert forall|k2: Seq<char>|
                entries_get(self.entries@, k2) == entries_get(es0, k2) + (if k2 == k@ {
                    amount as int
                } else {
                    0
                }) by {}
            assert(entries_wf(self.entries@)) by {
                assert(forall|j: int| 0 <= j < es0.len() ==> self.entries@[j] == es0[j]);
            }
        }
    }

    /// Take `amount` back out of the key's running sum; the key leaves the
    /// map when its sum reaches zero.
    pub fn sub(&mut self, k: &String, amount: u128)
        requires
            old(self).wf(),
            amount > 0,
            old(self).spec_get(k@) >= amount,
        ensures
            final(self).wf(),
            forall|k2: Seq<char>|
                final(self).spec_get(k2) == old(self).spec_get(k2) - (if k2 == k@ {
                    amount as int
                } else {
                    0
                }),
    {
        let n = self.entries.len();
        let mut i: usize = 0;
        while i < n
            invariant
                old(self).wf(),
                amount > 0,
                old(self).spec_get(k@) >= amount,
                n == self.entries@.len(),
                i <= n,
                *self == *old(self),
                forall|j: int| 0 <= j < i ==> (#[trigger] self.entries@[j]).0@ != k@,
            decreases n - i,
        {
            if self.entries[i].0 == *k {
                proof {
                    lemma_get_at(self.entries@, i as int);
                }
                let v = self.entries[i].1;
                let ghost es0 = self.entries@;
                if v == amount {
                    proof {
                        assert forall|k2: Seq<char>|
                            entries_get(es0.remove(i as int), k2) == entries_get(es0, k2) - (if k2
                                == k@ {
                                amount as int
                            } else {
                                0
                            }) by {
                            lemma_get_remove(es0, i as int, k2);
                        }
                    }
                    self.entries.remove(i);
                    proof {
                        assert(entries_wf(self.entries@)) by {
                            assert(forall|j: int|
                                0 <= j < self.entries@.len() ==> self.entries@[j] == (if j < i {
                                    es0[j]
                                } else {
                                    es0[j + 1]
                                }));
                        }
                    }
                } else {
                    let key = self.entries[i].0.clone();
                    proof {
                        assert forall|k2: Seq<char>|
                            entries_get(es0.update(i as int, (es0[i as int].0, (v
                                - amount) as u128)), k2) == entries_get(es0, k2) - (if k2 == k@ {
                                amount as int
                            } else {
                                0
                            }) by {
                            lemma_get_update(es0, i as int, (v - amount) as u128, k2);
                        }
                    }
                    self.entries.remove(i);
                    self.entries.insert(i, (key, v - amount));
                    proof {
                        assert(self.entries@ =~= es0.update(i as int, (es0[i as int].0, (v
                            - amount) as u128)));
                        assert(entries_wf(self.entries@)) by {
                            assert(forall|j: int|
                                0 <= j < es0.len() && j != i ==> self.entries@[j] == es0[j]);
                            assert(self.entries@[i as int].0@ == es0[i as int].0@);
                        }
                    }
                }
                return ;
            }
            i += 1;
        }
        proof {
            lemma_get_absent(self.entries@, k@);
        }
    }

    /// The current breakdown: one `(key, rate)` pair per present key.
    pub fn snapshot(&self, window_ms: u64) -> (r: Vec<(String, u64)>)
        requires
            self.wf(),
            window_ms >= 1,
        ensures
            forall|i: int|
                0 <= i < r@.len() ==> self.spec_get((#[trigger] r@[i]).0@) > 0 && r@[i].1 as int
                    == rate_of(self.spec_get(r@[i].0@), window_ms as int),
            forall|k: Seq<char>|
                self.spec_get(k) > 0 ==> exists|i: int| 0 <= i < r@.len() && (#[trigger] r@[i]).0@
                    == k,
            forall|i: int, j: int| 0 <= i < j < r@.len() ==> r@[i].0@ != r@[j].0@,
    {
        let n = self.entries.len();
        let mut r: Vec<(String, u64)> = Vec::new();
        let mut i: usize = 0;
        while i < n
            invariant
                self.wf(),
                window_ms >= 1,
                n == self.entries@.len(),
                i <= n,
                r@.len() == i,
                forall|j: int| 0 <= j < i ==> (#[trigger] r@[j]).0@ == self.entries@[j].0@,
                forall|j: int|
                    0 <= j < i ==> (#[trigger] r@[j]).1 as int == rate_of(
                        self.entries@[j].1 as int,
                        window_ms as int,
                    ),
            decreases n - i,
        {
            r.push((self.entries[i].0.clone(), rate_of_sum(self.entries[i].1, window_ms)));
            i += 1;
        }
        proof {
            assert forall|j: int|
                0 <= j < r@.len() implies self.spec_get((#[trigger] r@[j]).0@) > 0 && r@[j].1 as int
                == rate_of(self.spec_get(r@[j].0@), window_ms as int) by {
                lemma_get_at(self.entries@, j);
            }
            assert forall|k: Seq<char>| self.spec_get(k) > 0 implies exists|i2: int|
                0 <= i2 < r@.len() && (#[trigger] r@[i2]).0@ == k by {
                lemma_get_pos_witness(self.entries@, k);
                let w = choose|i2: int|
                    0 <= i2 < self.entries@.len() && (#[trigger] self.entries@[i2]).0@ == k;
                assert(r@[w].0@ == k);
            }
        }
        r
    }
}

/// A composite action key, as a mathematical value.
pub type AKey = (Seq<char>, Seq<char>, EventKind, Direction);

/// Sum of the values of all entries with the given composite key.
pub open spec fn aentries_get(es: Seq<(ActionKey, u128)>, k: AKey) -> int
    decreases es.len(),
{
    if es.len() == 0 {
        0
    } else {
        aentries_get(es.drop_last(), k) + (if es.last().0@ == k {
            es.last().1 as int
        } else {
            0
        })
    }
}

/// Entry keys are distinct and every value is positive.
pub open spec fn aentries_wf(es: Seq<(ActionKey, u128)>) -> bool {
    &&& forall|i: int, j: int| 0 <= i < j < es.len() ==> es[i].0@ != es[j].0@
    &&& forall|i: int| 0 <= i < es.len() ==> (#[trigger] es[i]).1 > 0
}

proof fn lemma_aget_at(es: Seq<(ActionKey, u128)>, i: int)
    requires
        aentries_wf(es),
        0 <= i < es.len(),
    ensures
        aentries_get(es, es[i].0@) == es[i].1,
    decreases es.len(),
{
    if i + 1 == es.len() {
        lemma_aget_absent(es.drop_last(), es[i].0@);
    } else {
        lemma_aget_at(es.drop_last(), i);
        assert(es.drop_last()[i] == es[i]);
    }
}

proof fn lemma_aget_absent(es: Seq<(ActionKey, u128)>, k: AKey)
    requires
        forall|i: int| 0 <= i < es.len() ==> (#[trigger] es[i]).0@ != k,
    ensures
        aentries_get(es, k) == 0,
    decreases es.len(),
{
    if es.len() > 0 {
        lemma_aget_absent(es.drop_last(), k);
    }
}

proof fn lemma_aget_pos_witness(es: Seq<(ActionKey, u128)>, k: AKey)
    requires
        aentries_get(es, k) > 0,
    ensures
        exists|i: int| 0 <= i < es.len() && (#[trigger] es[i]).0@ == k,
    decreases es.len(),
{
    if es.last().0@ == k {
        assert(es[es.len() - 1].0@ == k);
    } else {
        lemma_aget_pos_witness(es.drop_last(), k);
        let i = choose|i: int| 0 <= i < es.drop_last().len() && (#[trigger] es.drop_last()[i]).0@
            == k;
        assert(es[i].0@ == k);
    }
}

proof fn lemma_aget_update(es: Seq<(ActionKey, u128)>, i: int, v: u128, k: AKey)
    requires
        0 <= i < es.len(),
    ensures
        aentries_get(es.update(i, (es[i].0, v)), k) == aentries_get(es, k) + (if es[i].0@ == k {
            v as int - es[i].1 as int
        } else {
            0
        }),
    decreases es.len(),
{
    let es2 = es.update(i, (es[i].0, v));
    if i + 1 == es.len() {
        assert(es2.drop_last() =~= es.drop_last());
    } else {
        assert(es2.drop_last() =~= es.drop_last().update(i, (es[i].0, v)));
        assert(es.drop_last()[i] == es[i]);
        lemma_aget_update(es.drop_last(), i, v, k);
        assert(es2.last() == es.last());
    }
}

proof fn lemma_aget_remove(es: Seq<(ActionKey, u128)>, i: int, k: AKey)
    requires
        0 <= i < es.len(),
    ensures
        aentries_get(es.remove(i), k) == aentries_get(es, k) - (if es[i].0@ == k {
            es[i].1 as int
        } else {
            0
        }),
    decreases es.len(),
{
    let es2 = es.remove(i);
    if i + 1 == es.len() {
        assert(es2 =~= es.drop_last());
    } else {
        assert(es2.drop_last() =~= es.drop_last().remove(i));
        assert(es.drop_last()[i] == es[i]);
        lemma_aget_remove(es.drop_last(), i, k);
        assert(es2.last() == es.last());
    }
}

/// Field-by-field copy of a composite key.
fn clone_key(k: &ActionKey) -> (r: ActionKey)
    ensures
        r == *k,
{
    ActionKey {
        character: k.character.clone(),
        action_name: k.action_name.clone(),
        kind: k.kind,
        direction: k.direction,
    }
}

/// Composite-key equality.
fn key_eq(a: &ActionKey, b: &ActionKey) -> (r: bool)
    ensures
        r == (a@ == b@),
{
    a.character == b.character && a.action_name == b.action_name && a.kind == b.kind && a.direction
        == b.direction
}

/// A running per-key sum map with composite action keys.
pub struct ActionRateMap {
    entries: Vec<(ActionKey, u128)>,
}

impl ActionRateMap {
    /// The running sum for a key; zero when the key is absent.
    pub closed spec fn spec_get(self, k: AKey) -> int {
        aentries_get(self.entries@, k)
    }

    /// Internal well-formedness: distinct keys, positive values.
    pub closed spec fn wf(self) -> bool {
        aentries_wf(self.entries@)
    }

    /// An empty map: every sum is zero.
    pub fn new() -> (r: Self)
        ensures
            r.wf(),
            forall|k: AKey| r.spec_get(k) == 0,
    {
        ActionRateMap { entries: Vec::new() }
    }

    /// Add `amount` to the key's running sum.
    pub fn add(&mut self, k: &ActionKey, amount: u128)
        requires
            old(self).wf(),
            amount > 0,
            old(self).spec_get(k@) + amount <= u128::MAX,
        ensures
            final(self).wf(),
            forall|k2: AKey|
                final(self).spec_get(k2) == old(self).spec_get(k2) + (if k2 == k@ {
                    amount as int
                } else {
                    0
                }),
    {
        let n = self.entries.len();
        let mut i: usize = 0;
        while i < n
            invariant
                old(self).wf(),
                amount > 0,
                old(self).spec_get(k@) + amount <= u128::MAX,
                n == self.entries@.len(),
                i <= n,
                *self == *old(self),
                forall|j: int| 0 <= j < i ==> (#[trigger] self.entries@[j]).0@ != k@,
            decreases n - i,
        {
            if key_eq(&self.entries[i].0, k) {
                proof {
                    lemma_aget_at(self.entries@, i as int);
                }
                let v = self.entries[i].1;
                let key = clone_key(&self.entries[i].0);
                proof {
                    assert forall|k2: AKey|
                        aentries_get(
                            self.entries@.update(i as int, (self.entries@[i as int].0, (v
                                + amount) as u128)),
                            k2,
                        ) == aentries_get(self.entries@, k2) + (if k2 == k@ {
                            amount as int
                        } else {
                            0
                        }) by {
                        lemma_aget_update(self.entries@, i as int, (v + amount) as u128, k2);
                    }
                }
                let ghost es0 = self.entries@;
                self.entries.remove(i);
                self.entries.insert(i, (key, v + amount));
                proof {
                    assert(self.entries@ =~= es0.update(i as int, (es0[i as int].0, (v
                        + amount) as u128)));
                    assert(aentries_wf(self.entries@)) by {
                        assert(forall|j: int|
                            0 <= j < es0.len() && j != i ==> self.entries@[j] == es0[j]);
                        assert(self.entries@[i as int].0@ == es0[i as int].0@);
                    }
                }
                return ;
            }
            i += 1;
        }
        proof {
            lemma_aget_absent(self.entries@, k@);
        }
        let ghost es0 = self.entries@;
        self.entries.push((clone_key(k), amount));
        proof {
            assert(self.entries@.drop_last() =~= es0);
            assert(aentries_wf(self.entries@)) by {
                assert(forall|j: int| 0 <= j < es0.len() ==> self.entries@[j] == es0[j]);
            }
        }
    }

    /// Take `amount` back out of the key's running sum; the key leaves the
    /// map when its sum reaches zero.
    pub fn sub(&mut self, k: &ActionKey, amount: u128)
        requires
            old(self).wf(),
            amount > 0,
            old(self).spec_get(k@) >= amount,
        ensures
            final(self).wf(),
            forall|k2: AKey|
                final(self).spec_get(k2) == old(self).spec_get(k2) - (if k2 == k@ {
                    amount as int
                } else {
                    0
                }),
    {
        let n = self.entries.len();
        let mut i: usize = 0;
        while i < n
            invariant
                old(self).wf(),
                amount > 0,
                old(self).spec_get(k@) >= amount,
                n == self.entries@.len(),
                i <= n,
                *self == *old(self),
                forall|j: int| 0 <= j < i ==> (#[trigger] self.entries@[j]).0@ != k@,
            decreases n - i,
        {
            if key_eq(&self.entries[i].0, k) {
                proof {
                    lemma_aget_at(self.entries@, i as int);
                }
                let v = self.entries[i].1;
                let ghost es0 = self.entries@;
                if v == amount {
                    proof {
                        assert forall|k2: AKey|
                            aentries_get(es0.remove(i as int), k2) == aentries_get(es0, k2) - (
                            if k2 == k@ {
                                amount as int
                            } else {
                                0
                            }) by {
                            lemma_aget_remove(es0, i as int, k2);
                        }
                    }
                    self.entries.remove(i);
                    proof {
                        assert(aentries_wf(self.entries@)) by {
                            assert(forall|j: int|
                                0 <= j < self.entries@.len() ==> self.entries@[j] == (if j < i {
                                    es0[j]
                                } else {
                                    es0[j + 1]
                                }));
                        }
                    }
                } else {
                    let key = clone_key(&self.entries[i].0);
                    proof {
                        assert forall|k2: AKey|
                            aentries_get(
                                es0.update(i as int, (es0[i as int].0, (v - amount) as u128)),
                                k2,
                            ) == aentries_get(es0, k2) - (if k2 == k@ {
                                amount as int
                            } else {
                                0
                            }) by {
                            lemma_aget_update(es0, i as int, (v - amount) as u128, k2);
                        }
                    }
                    self.entries.remove(i);
                    self.entries.insert(i, (key, v - amount));
                    proof {
                        assert(self.entries@ =~= es0.update(i as int, (es0[i as int].0, (v
                            - amount) as u128)));
                        assert(aentries_wf(self.entries@)) by {
                            assert(forall|j: int|
                                0 <= j < es0.len() && j != i ==> self.entries@[j] == es0[j]);
                            assert(self.entries@[i as int].0@ == es0[i as int].0@);
                        }
                    }
                }
                return ;
            }
            i += 1;
        }
        proof {
            lemma_aget_absent(self.entries@, k@);
        }
    }

    /// The current breakdown: one row per present composite key.
    pub fn snapshot(&self, window_ms: u64) -> (r: Vec<CombatAction>)
        requires
            self.wf(),
            window_ms >= 1,
        ensures
            forall|i: int|
                0 <= i < r@.len() ==> self.spec_get(action_of(#[trigger] r@[i])) > 0
                    && r@[i].rate as int == rate_of(
                    self.spec_get(action_of(r@[i])),
                    window_ms as int,
                ),
            forall|k: AKey|
                self.spec_get(k) > 0 ==> exists|i: int|
                    0 <= i < r@.len() && action_of(#[trigger] r@[i]) == k,
            forall|i: int, j: int| 0 <= i < j < r@.len() ==> action_of(r@[i]) != action_of(r@[j]),
    {
        let n = self.entries.len();
        let mut r: Vec<CombatAction> = Vec::new();
        let mut i: usize = 0;
        while i < n
            invariant
                self.wf(),
                window_ms >= 1,
                n == self.entries@.len(),
                i <= n,
                r@.len() == i,
                forall|j: int| 0 <= j < i ==> action_of(#[trigger] r@[j]) == self.entries@[j].0@,
                forall|j: int|
                    0 <= j < i ==> (#[trigger] r@[j]).rate as int == rate_of(
                        self.entries@[j].1 as int,
                        window_ms as int,
                    ),
            decreases n - i,
        {
            let key = clone_key(&self.entries[i].0);
            let rate = rate_of_sum(self.entries[i].1, window_ms);
            r.push(
                CombatAction {
                    character: key.character,
                    action_name: key.action_name,
                    kind: key.kind,
                    direction: key.direction,
                    rate,
                },
            );
            i += 1;
        }
        proof {
            assert forall|j: int|
                0 <= j < r@.len() implies self.spec_get(action_of(#[trigger] r@[j])) > 0
                && r@[j].rate as int == rate_of(self.spec_get(action_of(r@[j])), window_ms as int) by {
                lemma_aget_at(self.entries@, j);
            }
            assert forall|k: AKey| self.spec_get(k) > 0 implies exists|i2: int|
                0 <= i2 < r@.len() && action_of(#[trigger] r@[i2]) == k by {
                lemma_aget_pos_witness(self.entries@, k);
                let w = choose|i2: int|
                    0 <= i2 < self.entries@.len() && (#[trigger] self.entries@[i2]).0@ == k;
                assert(action_of(r@[w]) == k);
            }
        }
        r
    }
}

} // verus!
