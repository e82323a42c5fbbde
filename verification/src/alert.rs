//! Threshold alerts on the time spent in one category.

use vstd::prelude::*;
use vstd::string::*;
use crate::monitor::Notice;
use crate::text::{hms, to_hms};

verus! {

/// The largest duration, in milliseconds, that a time delta can hold: `i64::MAX` ms.
pub const MAX_DURATION_MS: u64 = 9223372036854775807u64;

/// The largest threshold, in minutes, whose duration can be represented.
pub const MAX_THRESHOLD_MINUTES: u64 = 153722867280912u64;

/// The largest number of whole seconds that a time delta can hold.
pub const MAX_DURATION_SECS: u64 = 9223372036854775u64;

/// The offset of the start of a day from midnight (four hours), in milliseconds.
pub const TIME_OFFSET_MS: u64 = 14400000u64;

/// The elements of `s` that are above `lo`, in order.
pub open spec fn above(s: Seq<u64>, lo: u64) -> Seq<u64>
    decreases s.len(),
{
    if s.len() == 0 {
        s
    } else if s.last() > lo {
        above(s.drop_last(), lo).push(s.last())
    } else {
        above(s.drop_last(), lo)
    }
}

/// The smallest element of `s` above `lo`, if any.
pub open spec fn min_above(s: Seq<u64>, lo: int) -> Option<u64>
    decreases s.len(),
{
    if s.len() == 0 {
        None
    } else {
        let b = min_above(s.drop_last(), lo);
        let t = s.last();
        if t > lo {
            match b {
                Some(x) => Some(if x <= t { x } else { t }),
                None => Some(t),
            }
        } else {
            b
        }
    }
}

/// The largest element of `s` in the range `(lo, hi]`, if any.
pub open spec fn max_within(s: Seq<u64>, lo: u64, hi: u64) -> Option<u64>
    decreases s.len(),
{
    if s.len() == 0 {
        None
    } else {
        let b = max_within(s.drop_last(), lo, hi);
        let t = s.last();
        if lo < t && t <= hi {
            match b {
                Some(x) => Some(if x >= t { x } else { t }),
                None => Some(t),
            }
        } else {
            b
        }
    }
}

pub proof fn lemma_min_above(s: Seq<u64>, lo: int)
    ensures
        match min_above(s, lo) {
            Some(x) => s.contains(x) && x > lo && forall|i: int| 0 <= i < s.len() && s[i] > lo ==> x <= #[trigger] s[i],
            None => forall|i: int| 0 <= i < s.len() ==> #[trigger] s[i] <= lo,
        },
    decreases s.len(),
{
    if s.len() > 0 {
        let d = s.drop_last();
        let n = s.len() - 1;
        lemma_min_above(d, lo);
        assert forall|i: int| 0 <= i < d.len() implies #[trigger] d[i] == s[i] by {}
        let t = s[n];
        match min_above(s, lo) {
            Some(x) => {
                if x == t {
                    assert(s.contains(x));
                } else {
                    let j = choose|j: int| 0 <= j < d.len() && d[j] == x;
                    assert(s[j] == x);
                }
                assert forall|i: int| 0 <= i < s.len() && s[i] > lo implies x <= #[trigger] s[i] by {
                    if i < n { assert(d[i] == s[i]); }
                }
            },
            None => {
                assert forall|i: int| 0 <= i < s.len() implies #[trigger] s[i] <= lo by {
                    if i < n { assert(d[i] == s[i]); }
                }
            },
        }
    }
}

pub proof fn lemma_max_within(s: Seq<u64>, lo: u64, hi: u64)
    ensures
        match max_within(s, lo, hi) {
            Some(x) => s.contains(x) && lo < x <= hi
                && forall|i: int| 0 <= i < s.len() && lo < s[i] <= hi ==> #[trigger] s[i] <= x,
            None => forall|i: int| 0 <= i < s.len() ==> !(lo < #[trigger] s[i] <= hi),
        },
    decreases s.len(),
{
    if s.len() > 0 {
        let d = s.drop_last();
        let n = s.len() - 1;
        lemma_max_within(d, lo, hi);
        assert forall|i: int| 0 <= i < d.len() implies #[trigger] d[i] == s[i] by {}
        let t = s[n];
        match max_within(s, lo, hi) {
            Some(x) => {
                if x == t {
                    assert(s.contains(x));
                } else {
                    let j = choose|j: int| 0 <= j < d.len() && d[j] == x;
                    assert(s[j] == x);
                }
                assert forall|i: int| 0 <= i < s.len() && lo < s[i] <= hi implies #[trigger] s[i] <= x by {
                    if i < n { assert(d[i] == s[i]); }
                }
            },
            None => {
                assert forall|i: int| 0 <= i < s.len() implies !(lo < #[trigger] s[i] <= hi) by {
                    if i < n { assert(d[i] == s[i]); }
                }
            },
        }
    }
}

/// A threshold alert on the time spent in one category. Durations are in milliseconds,
/// instants in milliseconds since the Unix epoch.
pub struct CategoryAlert {
    pub category: String,
    pub label: String,
    pub thresholds: Vec<u64>,
    pub max_triggered: u64,
    pub time_spent: u64,
    pub last_check: i64,
    pub positive: bool,
    pub last_status: Option<String>,
}

/// The title of a threshold notification.
pub open spec fn alert_title(positive: bool) -> Seq<char> {
    if positive { "Goal reached!"@ } else { "Time spent"@ }
}

/// The message of a threshold notification: the label and the threshold, and the time
/// spent in parentheses where it reads differently from the threshold.
pub open spec fn alert_message(label: Seq<char>, threshold_ms: nat, spent_ms: nat) -> Seq<char> {
    let th = hms(threshold_ms / 1000);
    let sp = hms(spent_ms / 1000);
    if th != sp {
        label + ": "@ + th + "  ("@ + sp + ")"@
    } else {
        label + ": "@ + th
    }
}

/// The status line of an alert: its label and the time spent.
pub open spec fn alert_status(label: Seq<char>, spent_ms: nat) -> Seq<char> {
    label + ": "@ + hms(spent_ms / 1000)
}

/// The highest threshold reached once `spent` is known, given the highest one
/// triggered before.
pub open spec fn checked_max(ths: Seq<u64>, max: u64, spent: u64) -> u64 {
    match max_within(ths, max, spent) {
        Some(t) => t,
        None => max,
    }
}

/// How long to wait, in milliseconds, before the time spent needs looking at again.
pub open spec fn wait_time(ths: Seq<u64>, max: u64, spent: u64, until_day_end: nat) -> nat {
    match min_above(ths, max as int) {
        Some(t) => if t > spent { (t - spent) as nat } else { 0 },
        None => (until_day_end + TIME_OFFSET_MS + match min_above(ths, -1) {
            Some(m) => m as nat,
            None => 0,
        }) as nat,
    }
}

impl CategoryAlert {
    /// A new alert on `category`, labelled `label` (the category where none is given), with
    /// the given thresholds in milliseconds; nothing triggered or spent yet.
    pub fn new(category: &str, thresholds: Vec<u64>, label: Option<&str>, positive: bool) -> (a: CategoryAlert)
        ensures
            a.category@ == category@,
            a.label@ == match label {
                Some(l) => l@,
                None => category@,
            },
            a.thresholds@ == thresholds@,
            a.max_triggered == 0,
            a.time_spent == 0,
            a.last_check == 0,
            a.positive == positive,
            a.last_status.is_none(),
    {
        let label = match label {
            Some(l) => String::from_str(l),
            None => String::from_str(category),
        };
        CategoryAlert {
            category: String::from_str(category),
            label,
            thresholds,
            max_triggered: 0,
            time_spent: 0,
            last_check: 0,
            positive,
            last_status: None,
        }
    }

    /// The thresholds not triggered yet (those above the highest one triggered), in order.
    pub fn thresholds_untriggered(&self) -> (r: Vec<u64>)
        ensures
            r@ == above(self.thresholds@, self.max_triggered),
    {
        let mut r: Vec<u64> = Vec::new();
        let n = self.thresholds.len();
        for i in 0..n
            invariant
                n == self.thresholds@.len(),
                r@ == above(self.thresholds@.take(i as int), self.max_triggered),
        {
            assert(self.thresholds@.take(i + 1).drop_last() =~= self.thresholds@.take(i as int));
            if self.thresholds[i] > self.max_triggered {
                r.push(self.thresholds[i]);
            }
        }
        assert(self.thresholds@.take(n as int) =~= self.thresholds@);
        r
    }

    /// The smallest threshold above `lo`, if any.
    fn smallest_above(&self, lo: u64, any: bool) -> (r: Option<u64>)
        ensures
            r == min_above(self.thresholds@, if any { -1 } else { lo as int }),
    {
        let ghost bound: int = if any { -1 } else { lo as int };
        let mut best: Option<u64> = None;
        let n = self.thresholds.len();
        for i in 0..n
            invariant
                n == self.thresholds@.len(),
                bound == if any { -1 } else { lo as int },
                best == min_above(self.thresholds@.take(i as int), bound),
        {
            assert(self.thresholds@.take(i + 1).drop_last() =~= self.thresholds@.take(i as int));
            let t = self.thresholds[i];
            if any || t > lo {
                best = match best {
                    Some(x) => Some(if x <= t { x } else { t }),
                    None => Some(t),
                };
            }
        }
        assert(self.thresholds@.take(n as int) =~= self.thresholds@);
        best
    }

    /// How long to wait, in milliseconds, until the next threshold could be reached: the
    /// time still missing to the smallest untriggered threshold (zero if it is already
    /// reached); with every threshold triggered, the time until the next day starts
    /// (`until_day_end` plus the day's offset) plus the smallest threshold.
    pub fn time_to_next_threshold(&self, until_day_end: u64) -> (r: u64)
        requires
            min_above(self.thresholds@, self.max_triggered as int) is None ==>
                until_day_end + TIME_OFFSET_MS + match min_above(self.thresholds@, -1) {
                    Some(m) => m as nat,
                    None => 0,
                } <= MAX_DURATION_MS,
        ensures
            r == wait_time(self.thresholds@, self.max_triggered, self.time_spent, until_day_end as nat),
    {
        match self.smallest_above(self.max_triggered, false) {
            Some(t) => {
                if t > self.time_spent {
                    t - self.time_spent
                } else {
                    0
                }
            },
            None => {
                let m = match self.smallest_above(0, true) {
                    Some(m) => m,
                    None => 0,
                };
                until_day_end + TIME_OFFSET_MS + m
            },
        }
    }

    /// Whether the time spent needs looking at again at `now` (milliseconds since the
    /// epoch): only once the wait since the last look has passed.
    pub fn needs_update(&self, now: i64, until_day_end: u64) -> (b: bool)
        requires
            min_above(self.thresholds@, self.max_triggered as int) is None ==>
                until_day_end + TIME_OFFSET_MS + match min_above(self.thresholds@, -1) {
                    Some(m) => m as nat,
                    None => 0,
                } <= MAX_DURATION_MS,
        ensures
            b == (now > self.last_check + wait_time(self.thresholds@, self.max_triggered, self.time_spent, until_day_end as nat)),
    {
        let wait = self.time_to_next_threshold(until_day_end);
        (now as i128) > (self.last_check as i128) + (wait as i128)
    }

    /// Records a look at the time spent at `now`: `spent` is the category's time in
    /// milliseconds where the look found one, kept in whole seconds.
    pub fn apply_update(&mut self, now: i64, spent: Option<u64>)
        requires
            match spent {
                Some(ms) => ms / 1000 <= MAX_DURATION_SECS,
                None => true,
            },
        ensures
            final(self).time_spent == match spent {
                Some(ms) => (ms / 1000 * 1000) as u64,
                None => old(self).time_spent,
            },
            final(self).last_check == now,
            final(self).category == old(self).category,
            final(self).label == old(self).label,
            final(self).thresholds == old(self).thresholds,
            final(self).max_triggered == old(self).max_triggered,
            final(self).positive == old(self).positive,
            final(self).last_status == old(self).last_status,
    {
        match spent {
            Some(ms) => {
                self.time_spent = ms / 1000 * 1000;
            },
            None => {},
        }
        self.last_check = now;
    }

    /// Checks the thresholds against the time spent: the highest untriggered threshold that
    /// is reached becomes the highest triggered one, and (unless `silent`) a notification
    /// about it is returned.
    pub fn check(&mut self, silent: bool) -> (r: Option<Notice>)
        ensures
            final(self).max_triggered == checked_max(old(self).thresholds@, old(self).max_triggered, old(self).time_spent),
            final(self).max_triggered >= old(self).max_triggered,
            forall|i: int| 0 <= i < old(self).thresholds@.len() && #[trigger] old(self).thresholds@[i] <= old(self).time_spent
                ==> old(self).thresholds@[i] <= final(self).max_triggered,
            final(self).category == old(self).category,
            final(self).label == old(self).label,
            final(self).thresholds == old(self).thresholds,
            final(self).time_spent == old(self).time_spent,
            final(self).last_check == old(self).last_check,
            final(self).positive == old(self).positive,
            final(self).last_status == old(self).last_status,
            match r {
                Some(n) => !silent && max_within(old(self).thresholds@, old(self).max_triggered, old(self).time_spent) is Some
                    && n.title@ == alert_title(old(self).positive)
                    && n.message@ == alert_message(old(self).label@, final(self).max_triggered as nat, old(self).time_spent as nat),
                None => silent || max_within(old(self).thresholds@, old(self).max_triggered, old(self).time_spent) is None,
            },
    {
        proof { lemma_max_within(self.thresholds@, self.max_triggered, self.time_spent); }
        let mut best: Option<u64> = None;
        let n = self.thresholds.len();
        for i in 0..n
            invariant
                n == self.thresholds@.len(),
                best == max_within(self.thresholds@.take(i as int), self.max_triggered, self.time_spent),
        {
            assert(self.thresholds@.take(i + 1).drop_last() =~= self.thresholds@.take(i as int));
            let t = self.thresholds[i];
            if self.max_triggered < t && t <= self.time_spent {
                best = match best {
                    Some(x) => Some(if x >= t { x } else { t }),
                    None => Some(t),
                };
            }
        }
        assert(self.thresholds@.take(n as int) =~= self.thresholds@);
        match best {
            None => None,
            Some(threshold) => {
                self.max_triggered = threshold;
                if silent {
                    None
                } else {
                    let threshold_str = to_hms(threshold / 1000);
                    let spent_str = to_hms(self.time_spent / 1000);
                    let title = if self.positive {
                        String::from_str("Goal reached!")
                    } else {
                        String::from_str("Time spent")
                    };
                    let mut message = self.label.clone();
                    message.append(": ");
                    message.append(threshold_str.as_str());
                    if threshold_str != spent_str {
                        message.append("  (");
                        message.append(spent_str.as_str());
                        message.append(")");
                    }
                    Some(Notice { title, message })
                }
            },
        }
    }

    /// The alert's status line: its label and the time spent.
    pub fn status(&self) -> (s: String)
        ensures
            s@ == alert_status(self.label@, self.time_spent as nat),
    {
        let mut s = self.label.clone();
        s.append(": ");
        let t = to_hms(self.time_spent / 1000);
        s.append(t.as_str());
        s
    }

    /// Remembers the current status line as the last one seen.
    pub fn record_status(&mut self)
        ensures
            final(self).last_status matches Some(s) && s@ == alert_status(old(self).label@, old(self).time_spent as nat),
            final(self).category == old(self).category,
            final(self).label == old(self).label,
            final(self).thresholds == old(self).thresholds,
            final(self).time_spent == old(self).time_spent,
            final(self).max_triggered == old(self).max_triggered,
            final(self).last_check == old(self).last_check,
            final(self).positive == old(self).positive,
    {
        let s = self.status();
        self.last_status = Some(s);
    }
}

/// Once checked, an alert stays quiet: checking again with the same time spent triggers
/// nothing more and changes nothing.
pub proof fn law_check_fires_once(ths: Seq<u64>, max: u64, spent: u64)
    ensures
        max_within(ths, checked_max(ths, max, spent), spent) is None,
        checked_max(ths, checked_max(ths, max, spent), spent) == checked_max(ths, max, spent),
{
    lemma_max_within(ths, max, spent);
    let m = checked_max(ths, max, spent);
    lemma_max_within(ths, m, spent);
    if max_within(ths, m, spent) is Some {
        let x = max_within(ths, m, spent)->0;
        let j = choose|j: int| 0 <= j < ths.len() && ths[j] == x;
        assert(max < ths[j] <= spent);
    }
}

/// The wait is zero exactly when an untriggered threshold is already reached.
pub proof fn law_wait_zero_when_reached(ths: Seq<u64>, max: u64, spent: u64, until_day_end: nat)
    requires
        min_above(ths, max as int) is Some,
    ensures
        (wait_time(ths, max, spent, until_day_end) == 0) <==> max_within(ths, max, spent) is Some,
{
    lemma_min_above(ths, max as int);
    lemma_max_within(ths, max, spent);
    let t = min_above(ths, max as int)->0;
    let j = choose|j: int| 0 <= j < ths.len() && ths[j] == t;
    if max_within(ths, max, spent) is Some {
        let x = max_within(ths, max, spent)->0;
        let k = choose|k: int| 0 <= k < ths.len() && ths[k] == x;
        assert(t <= ths[k]);
    } else {
        assert(!(max < ths[j] <= spent));
    }
}


/// The thresholds notified over a run of checks that starts with `max` as the highest
/// triggered threshold; each step is the time spent at that check and whether the check is
/// silent.
pub open spec fn run_notices(ths: Seq<u64>, max: u64, steps: Seq<(u64, bool)>) -> Seq<u64>
    decreases steps.len(),
{
    if steps.len() == 0 {
        seq![]
    } else {
        let next = checked_max(ths, max, steps[0].0);
        let rest = run_notices(ths, next, steps.drop_first());
        if !steps[0].1 && max_within(ths, max, steps[0].0) is Some {
            seq![next] + rest
        } else {
            rest
        }
    }
}

/// The highest triggered threshold at the end of such a run.
pub open spec fn run_max(ths: Seq<u64>, max: u64, steps: Seq<(u64, bool)>) -> u64
    decreases steps.len(),
{
    if steps.len() == 0 {
        max
    } else {
        run_max(ths, checked_max(ths, max, steps[0].0), steps.drop_first())
    }
}

proof fn lemma_run(ths: Seq<u64>, max: u64, t0: u64, steps: Seq<(u64, bool)>)
    requires
        forall|i: int| 0 <= i < ths.len() && #[trigger] ths[i] <= t0 ==> ths[i] <= max,
    ensures
        forall|a: int| 0 <= a < run_notices(ths, max, steps).len() ==> {
            &&& ths.contains(#[trigger] run_notices(ths, max, steps)[a])
            &&& run_notices(ths, max, steps)[a] > max
            &&& run_notices(ths, max, steps)[a] > t0
        },
        forall|a: int, b: int| 0 <= a < b < run_notices(ths, max, steps).len() ==>
            #[trigger] run_notices(ths, max, steps)[a] < #[trigger] run_notices(ths, max, steps)[b],
        run_max(ths, max, steps) >= max,
        run_max(ths, max, steps) == max || ths.contains(run_max(ths, max, steps)),
    decreases steps.len(),
{
    if steps.len() > 0 {
        let s = steps[0].0;
        let next = checked_max(ths, max, s);
        lemma_max_within(ths, max, s);
        assert forall|i: int| 0 <= i < ths.len() && #[trigger] ths[i] <= t0 implies ths[i] <= next by {}
        lemma_run(ths, next, t0, steps.drop_first());
        let rest = run_notices(ths, next, steps.drop_first());
        let n = run_notices(ths, max, steps);
        if max_within(ths, max, s) is Some {
            let j = choose|j: int| 0 <= j < ths.len() && ths[j] == next;
            assert(next > t0) by {
                if next <= t0 {
                    assert(ths[j] <= max);
                }
            }
            if !steps[0].1 {
                assert(n == seq![next] + rest);
                assert forall|a: int| 0 <= a < n.len() implies {
                    &&& ths.contains(#[trigger] n[a])
                    &&& n[a] > max
                    &&& n[a] > t0
                } by {
                    if a > 0 { assert(n[a] == rest[a - 1]); }
                }
                assert forall|a: int, b: int| 0 <= a < b < n.len() implies #[trigger] n[a] < #[trigger] n[b] by {
                    assert(n[b] == rest[b - 1]);
                    if a > 0 { assert(n[a] == rest[a - 1]); }
                }
            } else {
                assert(n == rest);
            }
        } else {
            assert(next == max);
        }
    }
}

/// Over any run of checks, silent or not, with the time spent changing in any way between
/// them: each notice names a threshold above the highest one triggered at the start;
/// notified thresholds rise strictly, so none is notified twice; and the highest triggered
/// threshold only rises and is always the starting one or one of the thresholds (so, from
/// a new alert, 0 or a threshold).
pub proof fn law_alert_any_run(ths: Seq<u64>, max: u64, steps: Seq<(u64, bool)>)
    ensures
        forall|a: int| 0 <= a < run_notices(ths, max, steps).len() ==>
            ths.contains(#[trigger] run_notices(ths, max, steps)[a]) && run_notices(ths, max, steps)[a] > max,
        forall|a: int, b: int| 0 <= a < b < run_notices(ths, max, steps).len() ==>
            #[trigger] run_notices(ths, max, steps)[a] < #[trigger] run_notices(ths, max, steps)[b],
        run_max(ths, max, steps) >= max,
        run_max(ths, max, steps) == max || ths.contains(run_max(ths, max, steps)),
{
    assert forall|i: int| 0 <= i < ths.len() && #[trigger] ths[i] <= 0 implies ths[i] <= max by {}
    lemma_run(ths, max, 0, steps);
}

/// After the silent check at start-up with `t0` spent, no threshold at or below `t0` is ever
/// notified, whatever checks follow.
pub proof fn law_alert_run(ths: Seq<u64>, t0: u64, steps: Seq<(u64, bool)>)
    ensures
        forall|a: int| 0 <= a < run_notices(ths, checked_max(ths, 0, t0), steps).len() ==> {
            &&& ths.contains(#[trigger] run_notices(ths, checked_max(ths, 0, t0), steps)[a])
            &&& run_notices(ths, checked_max(ths, 0, t0), steps)[a] > t0
        },
        forall|a: int, b: int| 0 <= a < b < run_notices(ths, checked_max(ths, 0, t0), steps).len() ==>
            #[trigger] run_notices(ths, checked_max(ths, 0, t0), steps)[a]
                < #[trigger] run_notices(ths, checked_max(ths, 0, t0), steps)[b],
        run_max(ths, checked_max(ths, 0, t0), steps) >= checked_max(ths, 0, t0),
        run_max(ths, checked_max(ths, 0, t0), steps) == 0 || ths.contains(run_max(ths, checked_max(ths, 0, t0), steps)),
{
    let m0 = checked_max(ths, 0, t0);
    lemma_max_within(ths, 0, t0);
    assert forall|i: int| 0 <= i < ths.len() && #[trigger] ths[i] <= t0 implies ths[i] <= m0 by {}
    lemma_run(ths, m0, t0, steps);
}

} // verus!
