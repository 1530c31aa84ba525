//! What a timezone file says, as plain sequences, and what holds of every
//! such timeline.

use vstd::prelude::*;

verus! {

/// What a zone record says: the offset from UTC in seconds, east positive,
/// whether daylight saving time is in force, and the abbreviated name.
pub struct Zone {
    pub local_minus_utc: i32,
    pub dst: bool,
    pub name: Seq<char>,
}

/// What a timezone file says: the transitions, the leap seconds and, where
/// the file has one, the rule for the time after the last transition.
pub struct Timeline {
    pub transitions: Seq<(i64, Zone)>,
    pub leap_transitions: Seq<(i64, i32)>,
    pub future_rules: Option<Seq<char>>,
}

/// The instants of a table, in its order.
pub open spec fn instants<V>(entries: Seq<(i64, V)>) -> Seq<i64> {
    Seq::new(entries.len(), |i: int| entries[i].0)
}

/// Each key is smaller than every key after it.
pub open spec fn ascending(keys: Seq<i64>) -> bool {
    forall|i: int, j: int| 0 <= i < j < keys.len() ==> keys[i] < keys[j]
}

/// Whether `key` lies before the place that a search for `target` looks
/// for: a search for the first key that is not smaller passes over the
/// smaller keys, and a search for the first greater key passes over the
/// equal ones too.
pub open spec fn passed_over(key: i64, target: i64, equal_too: bool) -> bool {
    key < target || (equal_too && key == target)
}

/// The first index from `from` on whose key is not passed over, found by
/// looking at one key after the other; the number of keys if there is none.
pub open spec fn scan_from(keys: Seq<i64>, target: i64, equal_too: bool, from: int) -> int
    decreases keys.len() - from,
{
    if from < 0 || from >= keys.len() || !passed_over(keys[from], target, equal_too) {
        from
    } else {
        scan_from(keys, target, equal_too, from + 1)
    }
}

/// The first index whose key is not smaller than `target`, or the number of
/// keys if there is none.
pub open spec fn lower_bound(keys: Seq<i64>, target: i64) -> int {
    scan_from(keys, target, false, 0)
}

/// The first index whose key is greater than `target`, or the number of keys
/// if there is none.
pub open spec fn upper_bound(keys: Seq<i64>, target: i64) -> int {
    scan_from(keys, target, true, 0)
}

impl Timeline {
    /// The transitions start at the earliest instant there is and ascend, and
    /// the leap seconds ascend.
    pub open spec fn well_formed(self) -> bool {
        &&& self.transitions.len() >= 1
        &&& self.transitions[0].0 == i64::MIN
        &&& ascending(instants(self.transitions))
        &&& ascending(instants(self.leap_transitions))
    }

    /// The zone in force at `at`: that of the last transition at or before
    /// `at`.
    pub open spec fn zone_at(self, at: i64) -> Zone {
        self.transitions[upper_bound(instants(self.transitions), at) - 1].1
    }

    /// The leap seconds counted by `at`: the total of the last leap entry at
    /// or before `at`, or 0 if there is none.
    pub open spec fn leap_seconds_at(self, at: i64) -> i32 {
        let next = upper_bound(instants(self.leap_transitions), at);
        if next == 0 {
            0
        } else {
            self.leap_transitions[next - 1].1
        }
    }
}

/// A scan that starts at or before the place where the keys turn from passed
/// over to not passed over ends at that place.
pub proof fn lemma_scan_stops_at_split(
    keys: Seq<i64>,
    target: i64,
    equal_too: bool,
    from: int,
    split: int,
)
    requires
        0 <= from <= split <= keys.len(),
        forall|i: int| from <= i < split ==> passed_over(keys[i], target, equal_too),
        split < keys.len() ==> !passed_over(keys[split], target, equal_too),
    ensures
        scan_from(keys, target, equal_too, from) == split,
    decreases split - from,
{
    if from < split {
        lemma_scan_stops_at_split(keys, target, equal_too, from + 1, split);
    }
}

/// A scan ends within the table, passes over every key before its end and
/// does not pass over the key at its end, if there is one.
pub proof fn lemma_scan_splits(keys: Seq<i64>, target: i64, equal_too: bool, from: int)
    requires
        0 <= from <= keys.len(),
    ensures
        from <= scan_from(keys, target, equal_too, from) <= keys.len(),
        forall|i: int|
            from <= i < scan_from(keys, target, equal_too, from) ==> passed_over(
                keys[i],
                target,
                equal_too,
            ),
        scan_from(keys, target, equal_too, from) < keys.len() ==> !passed_over(
            keys[scan_from(keys, target, equal_too, from)],
            target,
            equal_too,
        ),
    decreases keys.len() - from,
{
    if from < keys.len() && passed_over(keys[from], target, equal_too) {
        lemma_scan_splits(keys, target, equal_too, from + 1);
    }
}

/// Keys of which each is smaller than the next are ascending.
pub proof fn lemma_stepwise_ascending(keys: Seq<i64>)
    requires
        forall|i: int| 0 <= i && i + 1 < keys.len() ==> keys[i] < #[trigger] keys[i + 1],
    ensures
        ascending(keys),
{
    assert forall|i: int, j: int| 0 <= i < j < keys.len() implies keys[i] < keys[j] by {
        lemma_step_chain(keys, i, j);
    }
}

proof fn lemma_step_chain(keys: Seq<i64>, i: int, j: int)
    requires
        forall|i: int| 0 <= i && i + 1 < keys.len() ==> keys[i] < #[trigger] keys[i + 1],
        0 <= i < j < keys.len(),
    ensures
        keys[i] < keys[j],
    decreases j - i,
{
    assert(keys[j - 1] < keys[j - 1 + 1]);
    if i < j - 1 {
        lemma_step_chain(keys, i, j - 1);
    }
}

/// At every instant a zone is in force: the transition that `zone_at` takes
/// it from is in the table, is at or before `at`, and the transition after
/// it, if there is one, is after `at`.
pub proof fn lemma_zone_at_is_of_last_transition_up_to(t: Timeline, at: i64)
    requires
        t.well_formed(),
    ensures
        ({
            let last = upper_bound(instants(t.transitions), at) - 1;
            &&& 0 <= last < t.transitions.len()
            &&& t.transitions[last].0 <= at
            &&& last + 1 < t.transitions.len() ==> at < t.transitions[last + 1].0
        }),
{
    let keys = instants(t.transitions);
    lemma_scan_splits(keys, at, true, 0);
    let last = upper_bound(keys, at) - 1;
    assert(passed_over(keys[last], at, true));
}

/// Before the second transition, the zone in force is that of the first.
pub proof fn lemma_first_zone_until_second_transition(t: Timeline, at: i64)
    requires
        t.well_formed(),
        t.transitions.len() >= 2 ==> at < t.transitions[1].0,
    ensures
        t.zone_at(at) == t.transitions[0].1,
{
    let keys = instants(t.transitions);
    lemma_scan_stops_at_split(keys, at, true, 0, 1);
}

/// Before the first leap entry, and where there is none, no leap second
/// counts.
pub proof fn lemma_no_leap_seconds_before_first_entry(t: Timeline, at: i64)
    requires
        t.leap_transitions.len() >= 1 ==> at < t.leap_transitions[0].0,
    ensures
        t.leap_seconds_at(at) == 0,
{
}

} // verus!
