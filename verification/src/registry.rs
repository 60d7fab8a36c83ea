//! The time-sliced rule-enablement registry.
//!
//! A registry owns an ordered sequence of time slices, each pairing a
//! logical timestamp with the complete set of rules enabled from that
//! timestamp until superseded by a later slice. A query at time `t` answers
//! with the rules of the latest slice at or before `t`; with no such slice
//! the answer is empty — no rule is enabled by default.

use vstd::prelude::*;

use crate::seqs::lemma_filter_push;

verus! {

/// The inference rules the registry can enable or disable over time.
#[derive(Clone, Copy, Debug, PartialEq, Eq, Hash, Structural)]
pub enum RuleId {
    Id,
    BotI,
    AndL1,
    AndL2,
    AndR,
    OrL,
    Or1,
    Or2,
    ImpL,
    ImpR,
    Cut,
}

/// One policy epoch: from timestamp `t` on, exactly the rules in
/// `enabled_rules` are permitted, until a later slice supersedes this one.
#[derive(Clone, Debug, PartialEq, Eq)]
pub struct TimeSlice {
    pub t: u64,
    pub enabled_rules: Vec<RuleId>,
}

/// A time-indexed rule-enablement policy: an ordered sequence of slices.
#[derive(Clone, Debug, PartialEq, Eq)]
pub struct Registry {
    pub times: Vec<TimeSlice>,
}

/// The rules enabled at time `t`: those of the last slice in scan order
/// whose timestamp is at or before `t`, or none when no slice qualifies.
/// With timestamps in non-decreasing order, the last qualifying slice is the
/// one with the greatest timestamp at or before `t`.
pub open spec fn enabled_slice(times: Seq<TimeSlice>, t: u64) -> Seq<RuleId>
    decreases times.len(),
{
    if times.len() == 0 {
        Seq::empty()
    } else if times.last().t <= t {
        times.last().enabled_rules@
    } else {
        enabled_slice(times.drop_last(), t)
    }
}

/// Where a new slice with timestamp `at` is placed: before the first slice
/// whose timestamp exceeds `at`, so a timeline in non-decreasing order stays
/// in non-decreasing order.
pub open spec fn slice_insert_pos(times: Seq<TimeSlice>, at: u64) -> int
    decreases times.len(),
{
    if times.len() == 0 {
        0
    } else if times[0].t > at {
        0
    } else {
        1 + slice_insert_pos(times.subrange(1, times.len() as int), at)
    }
}

/// The rule list recorded by [`Registry::enable`]: the rules already in
/// force at `at`, with `rule` added if it was missing.
pub open spec fn rules_with(times: Seq<TimeSlice>, at: u64, rule: RuleId) -> Seq<RuleId> {
    let cur = enabled_slice(times, at);
    if cur.contains(rule) {
        cur
    } else {
        cur.push(rule)
    }
}

/// The predicate that keeps every rule but `rule`.
pub open spec fn keeps(rule: RuleId) -> spec_fn(RuleId) -> bool {
    |x: RuleId| x != rule
}

/// The rule list recorded by [`Registry::disable`]: the rules already in
/// force at `at`, with every occurrence of `rule` removed.
pub open spec fn rules_without(times: Seq<TimeSlice>, at: u64, rule: RuleId) -> Seq<RuleId> {
    enabled_slice(times, at).filter(keeps(rule))
}

/// How one call of `enable` or `disable` reshapes the timeline: a slice with
/// timestamp `at` and rule list `rules` is inserted at the position
/// [`slice_insert_pos`] gives, and every other slice is kept unchanged.
pub open spec fn timeline_with_slice(
    old_times: Seq<TimeSlice>,
    new_times: Seq<TimeSlice>,
    at: u64,
    rules: Seq<RuleId>,
) -> bool {
    let k = slice_insert_pos(old_times, at);
    &&& new_times.len() == old_times.len() + 1
    &&& (forall|i: int| 0 <= i < k ==> new_times[i] == old_times[i])
    &&& (forall|i: int| k < i < new_times.len() ==> new_times[i] == old_times[i - 1])
    &&& new_times[k].t == at
    &&& new_times[k].enabled_rules@ == rules
}

impl Registry {
    /// Create an empty registry: no slice is recorded, so no rule is
    /// enabled at any time.
    pub fn new() -> (r: Registry)
        ensures
            r.times@ =~= Seq::<TimeSlice>::empty(),
    {
        Registry { times: Vec::new() }
    }

    /// An empty registry, equivalent to [`Registry::new`].
    pub fn default() -> (r: Registry)
        ensures
            r.times@ =~= Seq::<TimeSlice>::empty(),
    {
        Registry::new()
    }

    /// The rules enabled at logical time `t`.
    ///
    /// Scans the slices in order and answers with the rule list of the last
    /// slice whose timestamp is at or before `t`; the answer is empty when
    /// no slice qualifies. Pure: the registry is not changed, and the query
    /// cannot fail.
    pub fn enabled_at(&self, t: u64) -> (r: Vec<RuleId>)
        ensures
            r@ == enabled_slice(self.times@, t),
    {
        proof {
            assert(self.times@.take(self.times@.len() as int) =~= self.times@);
        }
        let mut idx: usize = self.times.len();
        while idx > 0
            invariant
                idx <= self.times.len(),
                enabled_slice(self.times@, t) == enabled_slice(self.times@.take(idx as int), t),
            decreases idx,
        {
            idx = idx - 1;
            proof {
                assert(self.times@.take(idx as int + 1).drop_last() =~= self.times@.take(
                    idx as int,
                ));
                assert(self.times@.take(idx as int + 1).last() == self.times@[idx as int]);
            }
            if self.times[idx].t <= t {
                let slice_rules = &self.times[idx].enabled_rules;
                let mut out: Vec<RuleId> = Vec::new();
                let mut i: usize = 0;
                while i < slice_rules.len()
                    invariant
                        i <= slice_rules.len(),
                        out@ =~= slice_rules@.take(i as int),
                    decreases slice_rules.len() - i,
                {
                    out.push(slice_rules[i]);
                    i = i + 1;
                }
                proof {
                    assert(out@ =~= slice_rules@);
                }
                return out;
            }
        }
        proof {
            assert(self.times@.take(0) =~= Seq::<TimeSlice>::empty());
        }
        Vec::new()
    }

    /// Record that from time `at` on, `rule` is enabled in addition to
    /// whatever was in force at `at`: a new complete slice is inserted in
    /// timestamp order.
    pub fn enable(&mut self, rule: RuleId, at: u64)
        ensures
            timeline_with_slice(
                old(self).times@,
                final(self).times@,
                at,
                rules_with(old(self).times@, at, rule),
            ),
    {
        let mut rules = self.enabled_at(at);
        if !contains_rule(&rules, rule) {
            rules.push(rule);
        }
        let k = self.insert_position(at);
        self.times.insert(k, TimeSlice { t: at, enabled_rules: rules });
        proof {
            old(self).times@.insert_ensures(k as int, final(self).times@[k as int]);
        }
    }

    /// Record that from time `at` on, `rule` is disabled: a new complete
    /// slice without it is inserted in timestamp order.
    pub fn disable(&mut self, rule: RuleId, at: u64)
        ensures
            timeline_with_slice(
                old(self).times@,
                final(self).times@,
                at,
                rules_without(old(self).times@, at, rule),
            ),
    {
        let cur = self.enabled_at(at);
        let mut rules: Vec<RuleId> = Vec::new();
        let mut i: usize = 0;
        while i < cur.len()
            invariant
                i <= cur.len(),
                rules@ == cur@.take(i as int).filter(keeps(rule)),
            decreases cur.len() - i,
        {
            proof {
                assert(cur@.take(i as int + 1) =~= cur@.take(i as int).push(cur@[i as int]));
                lemma_filter_push(cur@.take(i as int), cur@[i as int], keeps(rule));
            }
            if cur[i] != rule {
                rules.push(cur[i]);
            }
            i = i + 1;
        }
        proof {
            assert(cur@.take(cur@.len() as int) =~= cur@);
        }
        let k = self.insert_position(at);
        self.times.insert(k, TimeSlice { t: at, enabled_rules: rules });
        proof {
            old(self).times@.insert_ensures(k as int, final(self).times@[k as int]);
        }
    }

    /// Find where a slice with timestamp `at` belongs, per
    /// [`slice_insert_pos`].
    fn insert_position(&self, at: u64) -> (k: usize)
        ensures
            k == slice_insert_pos(self.times@, at),
            k <= self.times@.len(),
    {
        proof {
            assert(self.times@.subrange(0, self.times@.len() as int) =~= self.times@);
        }
        let mut i: usize = 0;
        while i < self.times.len()
            invariant
                i <= self.times.len(),
                slice_insert_pos(self.times@, at) == i as int + slice_insert_pos(
                    self.times@.subrange(i as int, self.times@.len() as int),
                    at,
                ),
            decreases self.times.len() - i,
        {
            proof {
                let rest_len: int = self.times@.len() as int;
                let rest = self.times@.subrange(i as int, rest_len);
                assert(rest[0] == self.times@[i as int]);
                assert(rest.subrange(1, rest.len() as int) =~= self.times@.subrange(
                    i as int + 1,
                    rest_len,
                ));
            }
            if self.times[i].t > at {
                return i;
            }
            i = i + 1;
        }
        proof {
            assert(self.times@.subrange(self.times@.len() as int, self.times@.len() as int)
                =~= Seq::<TimeSlice>::empty());
        }
        self.times.len()
    }
}

/// Whether `rule` occurs in `v`, by linear scan.
pub fn contains_rule(v: &Vec<RuleId>, rule: RuleId) -> (b: bool)
    ensures
        b == v@.contains(rule),
{
    let mut i: usize = 0;
    while i < v.len()
        invariant
            i <= v.len(),
            forall|j: int| 0 <= j < i ==> v@[j] != rule,
        decreases v.len() - i,
    {
        if v[i] == rule {
            return true;
        }
        i = i + 1;
    }
    false
}

} // verus!
