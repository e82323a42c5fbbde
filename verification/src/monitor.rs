//! Notifications and the small state machines of the background checks.

use vstd::prelude::*;
use vstd::string::*;
use crate::text::{decimal, digit_char, push_decimal};

verus! {

/// A notification to show: a title and a message.
pub struct Notice {
    pub title: String,
    pub message: String,
}

/// The notification has this title and message.
pub open spec fn notice_is(n: Notice, title: Seq<char>, message: Seq<char>) -> bool {
    n.title@ == title && n.message@ == message
}

fn notice(title: &str, message: &str) -> (n: Notice)
    ensures
        notice_is(n, title@, message@),
{
    Notice { title: String::from_str(title), message: String::from_str(message) }
}

/// Tracks whether the activity server is reachable and tells when that changes.
pub struct ServerMonitor {
    pub available: bool,
}

/// The notification for the server becoming available, or unavailable.
pub open spec fn server_notice_is(n: Notice, available: bool) -> bool {
    if available {
        notice_is(n, "Server Available"@, "ActivityWatch server is back online."@)
    } else {
        notice_is(n, "Server Unavailable"@, "ActivityWatch server is down. Data may not be saved!"@)
    }
}

impl ServerMonitor {
    /// A monitor that takes the server to be available.
    pub fn new() -> (m: ServerMonitor)
        ensures
            m.available,
    {
        ServerMonitor { available: true }
    }

    /// Records whether the server is available now; returns a notification exactly when
    /// that differs from what was known before.
    pub fn observe(&mut self, available: bool) -> (r: Option<Notice>)
        ensures
            final(self).available == available,
            r is Some <==> available != old(self).available,
            r matches Some(n) ==> server_notice_is(n, available),
    {
        if available == self.available {
            return None;
        }
        self.available = available;
        if available {
            Some(notice("Server Available", "ActivityWatch server is back online."))
        } else {
            Some(notice("Server Unavailable", "ActivityWatch server is down. Data may not be saved!"))
        }
    }
}

/// How old, in milliseconds, the latest AFK event may end and still tell the user's state.
pub const AFK_MAX_AGE_MS: i64 = 300000i64;

/// The latest event of the AFK watcher: its start and duration in milliseconds, and its
/// "status" where that is a string.
pub struct AfkEvent {
    pub start_ms: i64,
    pub duration_ms: i64,
    pub status: Option<String>,
}

/// Whether the user is active according to the latest AFK event at `now`: unknown without
/// an event, with one that ended more than five minutes ago, or without a status; else
/// active exactly when the status is "not-afk".
pub open spec fn afk_status_of(latest: Option<AfkEvent>, now: int) -> Option<bool> {
    match latest {
        None => None,
        Some(e) => if e.start_ms + e.duration_ms < now - AFK_MAX_AGE_MS {
            None
        } else {
            match e.status {
                Some(s) => Some(s@ == "not-afk"@),
                None => None,
            }
        },
    }
}

/// Whether the user is active according to the latest AFK event, at `now_ms`.
pub fn afk_status(latest: Option<&AfkEvent>, now_ms: i64) -> (r: Option<bool>)
    ensures
        r == afk_status_of(match latest { Some(e) => Some(*e), None => None }, now_ms as int),
{
    match latest {
        None => None,
        Some(e) => {
            let end = e.start_ms as i128 + e.duration_ms as i128;
            if end < now_ms as i128 - AFK_MAX_AGE_MS as i128 {
                None
            } else {
                match &e.status {
                    Some(s) => Some(*s == String::from_str("not-afk")),
                    None => None,
                }
            }
        },
    }
}

/// How long, in milliseconds, a cached query result stays fresh.
pub const CACHE_TTL_MS: i64 = 60000i64;

/// Whether a result cached at `cached_at_ms` may still be used at `now_ms`: less than a
/// minute has passed.
pub fn cache_is_fresh(cached_at_ms: i64, now_ms: i64) -> (b: bool)
    ensures
        b == (now_ms - cached_at_ms < CACHE_TTL_MS),
{
    (now_ms as i128) - (cached_at_ms as i128) < CACHE_TTL_MS as i128
}

/// A calendar day, with its day of the week (0 for Monday through 6 for Sunday).
#[derive(Debug, Clone, Copy)]
pub struct CalendarDay {
    pub year: i32,
    pub month: u32,
    pub day: u32,
    pub weekday: u32,
}

/// Two calendar days are the same date.
pub open spec fn same_day(a: CalendarDay, b: CalendarDay) -> bool {
    a.year == b.year && a.month == b.month && a.day == b.day
}

/// The English name of a day of the week, counted from Monday.
pub open spec fn weekday_name(w: nat) -> Seq<char> {
    if w == 0 { "Monday"@ } else if w == 1 { "Tuesday"@ } else if w == 2 { "Wednesday"@ }
    else if w == 3 { "Thursday"@ } else if w == 4 { "Friday"@ } else if w == 5 { "Saturday"@ }
    else { "Sunday"@ }
}

/// The decimal digits of `n`, with zeros in front up to `width` digits.
pub open spec fn padded(n: nat, width: nat) -> Seq<char> {
    if decimal(n).len() >= width {
        decimal(n)
    } else {
        Seq::new((width - decimal(n).len()) as nat, |i: int| '0') + decimal(n)
    }
}

/// A year as ISO 8601 writes it: four digits for years 0 to 9999, else a sign and at
/// least four digits.
pub open spec fn year_text(y: int) -> Seq<char> {
    if 0 <= y <= 9999 {
        padded(y as nat, 4)
    } else if y > 9999 {
        "+"@ + padded(y as nat, 4)
    } else {
        "-"@ + padded((-y) as nat, 4)
    }
}

/// A date as "YYYY-MM-DD".
pub open spec fn date_text(d: CalendarDay) -> Seq<char> {
    year_text(d.year as int) + "-"@ + padded(d.month as nat, 2) + "-"@ + padded(d.day as nat, 2)
}

/// The greeting on a new day: "It is Monday, 2024-01-01".
pub open spec fn greeting(d: CalendarDay) -> Seq<char> {
    "It is "@ + weekday_name(d.weekday as nat) + ", "@ + date_text(d)
}

fn push_padded(out: &mut String, n: u64, width: usize)
    ensures
        final(out)@ == old(out)@ + padded(n as nat, width as nat),
{
    let mut digits = String::new();
    push_decimal(&mut digits, n);
    let len = digits.as_str().unicode_len();
    if len < width {
        let mut k: usize = 0;
        let ghost start = out@;
        while k < width - len
            invariant
                k <= width - len,
                len < width,
                out@ == start + Seq::new(k as nat, |i: int| '0'),
            decreases width - len - k,
        {
            out.append("0");
            proof { reveal_strlit("0"); }
            assert(start + Seq::new((k + 1) as nat, |i: int| '0') =~= start + Seq::new(k as nat, |i: int| '0') + "0"@);
            k = k + 1;
        }
    }
    out.append(digits.as_str());
    assert(out@ =~= old(out)@ + padded(n as nat, width as nat));
}

fn push_weekday(out: &mut String, w: u32)
    ensures
        final(out)@ == old(out)@ + weekday_name(w as nat),
{
    let name = if w == 0 { "Monday" } else if w == 1 { "Tuesday" } else if w == 2 { "Wednesday" }
        else if w == 3 { "Thursday" } else if w == 4 { "Friday" } else if w == 5 { "Saturday" }
        else { "Sunday" };
    out.append(name);
}

/// Formats the new-day greeting for `d`.
pub fn greeting_text(d: &CalendarDay) -> (s: String)
    ensures
        s@ == greeting(*d),
{
    let mut s = String::from_str("It is ");
    push_weekday(&mut s, d.weekday);
    s.append(", ");
    let y = d.year;
    if 0 <= y && y <= 9999 {
        push_padded(&mut s, y as u64, 4);
    } else if y > 9999 {
        s.append("+");
        push_padded(&mut s, y as u64, 4);
    } else {
        s.append("-");
        let a: i64 = -(y as i64);
        push_padded(&mut s, a as u64, 4);
    }
    s.append("-");
    push_padded(&mut s, d.month as u64, 2);
    s.append("-");
    push_padded(&mut s, d.day as u64, 2);
    s
}

/// Greets the user once per day: remembers the last day greeted.
pub struct NewDayTracker {
    pub last_day: CalendarDay,
}

impl NewDayTracker {
    /// A tracker that counts `today` as already greeted.
    pub fn new(today: CalendarDay) -> (t: NewDayTracker)
        ensures
            t.last_day == today,
    {
        NewDayTracker { last_day: today }
    }

    /// Whether `day` is a day not greeted yet (which calls for asking whether the user is
    /// active).
    pub fn is_new_day(&self, day: &CalendarDay) -> (b: bool)
        ensures
            b == !same_day(*day, self.last_day),
    {
        !(day.year == self.last_day.year && day.month == self.last_day.month && day.day == self.last_day.day)
    }

    /// On `day`, with the user's activity `active`: greets (and remembers the day) where the
    /// day is new and the user is known to be active; otherwise changes nothing.
    pub fn on_status(&mut self, day: CalendarDay, active: Option<bool>) -> (r: Option<Notice>)
        ensures
            (!same_day(day, old(self).last_day) && active == Some(true)) ==> {
                &&& final(self).last_day == day
                &&& r matches Some(n) && notice_is(n, "New day"@, greeting(day))
            },
            !(!same_day(day, old(self).last_day) && active == Some(true)) ==> {
                &&& final(self).last_day == old(self).last_day
                &&& r is None
            },
    {
        if self.is_new_day(&day) {
            match active {
                Some(true) => {
                    let message = greeting_text(&day);
                    self.last_day = day;
                    Some(Notice { title: String::from_str("New day"), message })
                },
                _ => None,
            }
        } else {
            None
        }
    }
}


/// Day `a` is not later than day `b`.
pub open spec fn day_le(a: CalendarDay, b: CalendarDay) -> bool {
    a.year < b.year || (a.year == b.year && (a.month < b.month || (a.month == b.month && a.day <= b.day)))
}

/// The tracker greets on `day` with activity `active` when the last greeted day is `last`.
pub open spec fn greets(last: CalendarDay, day: CalendarDay, active: Option<bool>) -> bool {
    !same_day(day, last) && active == Some(true)
}

/// The days greeted over a run of checks from `last`, each step a day and the user's activity.
pub open spec fn run_greetings(last: CalendarDay, steps: Seq<(CalendarDay, Option<bool>)>) -> Seq<CalendarDay>
    decreases steps.len(),
{
    if steps.len() == 0 {
        seq![]
    } else {
        let d = steps[0].0;
        if greets(last, d, steps[0].1) {
            seq![d] + run_greetings(d, steps.drop_first())
        } else {
            run_greetings(last, steps.drop_first())
        }
    }
}

proof fn lemma_greetings(last: CalendarDay, steps: Seq<(CalendarDay, Option<bool>)>)
    requires
        forall|i: int| 0 <= i < steps.len() ==> day_le(last, #[trigger] steps[i].0),
        forall|i: int, j: int| 0 <= i < j < steps.len() ==> day_le(#[trigger] steps[i].0, #[trigger] steps[j].0),
    ensures
        forall|a: int| 0 <= a < run_greetings(last, steps).len() ==>
            day_le(last, #[trigger] run_greetings(last, steps)[a]) && !same_day(last, run_greetings(last, steps)[a]),
        forall|a: int, b: int| 0 <= a < b < run_greetings(last, steps).len() ==>
            day_le(#[trigger] run_greetings(last, steps)[a], #[trigger] run_greetings(last, steps)[b])
            && !same_day(run_greetings(last, steps)[a], run_greetings(last, steps)[b]),
    decreases steps.len(),
{
    if steps.len() > 0 {
        let d = steps[0].0;
        let rest = steps.drop_first();
        assert forall|i: int| 0 <= i < rest.len() implies day_le(d, #[trigger] rest[i].0) by {
            assert(rest[i] == steps[i + 1]);
        }
        assert forall|i: int| 0 <= i < rest.len() implies day_le(last, #[trigger] rest[i].0) by {
            assert(rest[i] == steps[i + 1]);
        }
        assert forall|i: int, j: int| 0 <= i < j < rest.len() implies day_le(#[trigger] rest[i].0, #[trigger] rest[j].0) by {
            assert(rest[i] == steps[i + 1] && rest[j] == steps[j + 1]);
        }
        let g = run_greetings(last, steps);
        assert(day_le(last, steps[0].0));
        if greets(last, d, steps[0].1) {
            lemma_greetings(d, rest);
            let r = run_greetings(d, rest);
            assert(g == seq![d] + r);
            assert forall|a: int| 0 <= a < g.len() implies day_le(last, #[trigger] g[a]) && !same_day(last, g[a]) by {
                if a > 0 { assert(g[a] == r[a - 1]); }
            }
            assert forall|a: int, b: int| 0 <= a < b < g.len() implies
                day_le(#[trigger] g[a], #[trigger] g[b]) && !same_day(g[a], g[b]) by {
                assert(g[b] == r[b - 1]);
                if a > 0 { assert(g[a] == r[a - 1]); }
            }
        } else {
            lemma_greetings(last, rest);
            assert(g == run_greetings(last, rest));
        }
    }
}

/// Over a run of checks on days that never go back, the tracker greets at most once per
/// day, and never on the day it started on.
pub proof fn law_one_greeting_per_day(start: CalendarDay, steps: Seq<(CalendarDay, Option<bool>)>)
    requires
        forall|i: int| 0 <= i < steps.len() ==> day_le(start, #[trigger] steps[i].0),
        forall|i: int, j: int| 0 <= i < j < steps.len() ==> day_le(#[trigger] steps[i].0, #[trigger] steps[j].0),
    ensures
        forall|a: int| 0 <= a < run_greetings(start, steps).len() ==> !same_day(start, #[trigger] run_greetings(start, steps)[a]),
        forall|a: int, b: int| 0 <= a < b < run_greetings(start, steps).len() ==>
            !same_day(#[trigger] run_greetings(start, steps)[a], #[trigger] run_greetings(start, steps)[b]),
{
    lemma_greetings(start, steps);
}

proof fn lemma_two_digits(n: nat)
    requires
        n < 100,
    ensures
        padded(n, 2) == seq![digit_char(n / 10), digit_char(n % 10)],
{
    if n < 10 {
        assert(decimal(n) == seq![digit_char(n)]);
        assert(padded(n, 2) =~= seq![digit_char(n / 10), digit_char(n % 10)]);
    } else {
        assert(decimal(n / 10) == seq![digit_char(n / 10)]);
        assert(decimal(n) == seq![digit_char(n / 10)].push(digit_char(n % 10)));
        assert(padded(n, 2) =~= seq![digit_char(n / 10), digit_char(n % 10)]);
    }
}

proof fn lemma_four_digits(n: nat)
    requires
        n < 10000,
    ensures
        padded(n, 4) == seq![digit_char(n / 1000), digit_char((n / 100) % 10), digit_char((n / 10) % 10), digit_char(n % 10)],
{
    let want = seq![digit_char(n / 1000), digit_char((n / 100) % 10), digit_char((n / 10) % 10), digit_char(n % 10)];
    if n < 10 {
        assert(decimal(n) == seq![digit_char(n)]);
        assert(padded(n, 4) =~= want);
    } else if n < 100 {
        assert(decimal(n / 10) == seq![digit_char(n / 10)]);
        assert(decimal(n) == seq![digit_char(n / 10)].push(digit_char(n % 10)));
        assert(padded(n, 4) =~= want);
    } else if n < 1000 {
        assert(n / 10 / 10 == n / 100);
        assert(decimal(n / 100) == seq![digit_char(n / 100)]);
        assert(decimal(n / 10) == seq![digit_char(n / 100)].push(digit_char((n / 10) % 10)));
        assert(decimal(n) == seq![digit_char(n / 100), digit_char((n / 10) % 10)].push(digit_char(n % 10)));
        assert(padded(n, 4) =~= want);
    } else {
        assert(n / 10 / 10 == n / 100);
        assert(n / 100 / 10 == n / 1000);
        assert(decimal(n / 1000) == seq![digit_char(n / 1000)]);
        assert(decimal(n / 100) == seq![digit_char(n / 1000)].push(digit_char((n / 100) % 10)));
        assert(decimal(n / 10) == seq![digit_char(n / 1000), digit_char((n / 100) % 10)].push(digit_char((n / 10) % 10)));
        assert(decimal(n) == seq![digit_char(n / 1000), digit_char((n / 100) % 10), digit_char((n / 10) % 10)].push(digit_char(n % 10)));
        assert(padded(n, 4) =~= want);
    }
}

/// The greeting names the day of the week and ends in the date's month and day, each as
/// exactly two digits ("-MM-DD"); for a year from 0 to 9999 it is exactly
/// "It is <weekday>, YYYY-MM-DD".
pub proof fn law_greeting_date(d: CalendarDay)
    requires
        1 <= d.month <= 12,
        1 <= d.day <= 31,
        d.weekday < 7,
    ensures
        ({
            let g = greeting(d);
            let name = if d.weekday == 0 { "Monday"@ } else if d.weekday == 1 { "Tuesday"@ }
                else if d.weekday == 2 { "Wednesday"@ } else if d.weekday == 3 { "Thursday"@ }
                else if d.weekday == 4 { "Friday"@ } else if d.weekday == 5 { "Saturday"@ } else { "Sunday"@ };
            let month_day = seq!['-', digit_char(d.month as nat / 10), digit_char(d.month as nat % 10),
                '-', digit_char(d.day as nat / 10), digit_char(d.day as nat % 10)];
            &&& g.len() >= 6
            &&& g.subrange(g.len() - 6, g.len() as int) == month_day
            &&& g.take((6 + name.len() + 2) as int) == "It is "@ + name + ", "@
            &&& 0 <= d.year <= 9999 ==> g == "It is "@ + name + ", "@ + seq![
                digit_char(d.year as nat / 1000), digit_char((d.year as nat / 100) % 10),
                digit_char((d.year as nat / 10) % 10), digit_char(d.year as nat % 10)] + month_day
        }),
{
    let g = greeting(d);
    lemma_two_digits(d.month as nat);
    lemma_two_digits(d.day as nat);
    reveal_strlit("-");
    reveal_strlit("It is ");
    reveal_strlit(", ");
    let month_day = seq!['-', digit_char(d.month as nat / 10), digit_char(d.month as nat % 10),
        '-', digit_char(d.day as nat / 10), digit_char(d.day as nat % 10)];
    let head = "It is "@ + weekday_name(d.weekday as nat) + ", "@;
    let y = year_text(d.year as int);
    assert("-"@ + padded(d.month as nat, 2) + "-"@ + padded(d.day as nat, 2) =~= month_day);
    assert(g =~= head + y + month_day);
    assert(g.subrange(g.len() - 6, g.len() as int) =~= month_day);
    assert(g.take(head.len() as int) =~= head);
    if 0 <= d.year <= 9999 {
        lemma_four_digits(d.year as nat);
    }
}

} // verus!
