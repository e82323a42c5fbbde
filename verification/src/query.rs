//! The time per category out of the events that a query of the activity server returns.

use vstd::prelude::*;
use vstd::string::*;
use crate::table::{add_time, entries_add, entries_insert, table_map, CategoryTimes};
use crate::category::{
    aggregate_categories_by_all_levels, aggregate_categories_by_top_level, all_levels_fold,
    all_name, all_string, top_level_fold,
};
use crate::text::{join, views};

verus! {

/// How to aggregate the time per category.
#[derive(Debug, Clone, Copy, PartialEq, Eq, Structural)]
pub enum CategoryAggregation {
    /// No aggregation: the full category hierarchy ("Work > Programming > Rust").
    Full,
    /// Only top-level categories ("Work").
    TopLevelOnly,
    /// Every level: both parent and leaf categories.
    AllLevels,
}

/// The category of an event as the server reports it.
pub enum EventCategory {
    /// A hierarchy of names, outermost first; `None` for a part that is not a string.
    Path(Vec<Option<String>>),
    /// A single name.
    Name(String),
    /// Anything else.
    Other,
}

/// An event merged by category, with its duration in milliseconds; either may be missing.
pub struct CategoryEvent {
    pub category: Option<EventCategory>,
    pub duration_ms: Option<u64>,
}

/// The parts of a path that are strings, in order.
pub open spec fn string_parts(parts: Seq<Option<String>>) -> Seq<Seq<char>>
    decreases parts.len(),
{
    if parts.len() == 0 {
        Seq::empty()
    } else {
        let d = string_parts(parts.drop_last());
        match parts.last() {
            Some(s) => d.push(s@),
            None => d,
        }
    }
}

/// The name of a category: the string parts of a path joined by " > ", a single name as it
/// is, and "Unknown" for anything else (or a path without string parts).
pub open spec fn category_name(c: EventCategory) -> Seq<char> {
    match c {
        EventCategory::Path(parts) => if string_parts(parts@).len() > 0 {
            join(string_parts(parts@), " > "@)
        } else {
            "Unknown"@
        },
        EventCategory::Name(s) => s@,
        EventCategory::Other => "Unknown"@,
    }
}

/// The event counts: it has both a category and a duration.
pub open spec fn is_counted(e: CategoryEvent) -> bool {
    e.category is Some && e.duration_ms is Some
}

/// The time per category name of a sequence of events, taken in order.
pub open spec fn events_fold(evs: Seq<CategoryEvent>) -> Map<Seq<char>, nat>
    decreases evs.len(),
{
    if evs.len() == 0 {
        Map::empty()
    } else {
        let m = events_fold(evs.drop_last());
        let e = evs.last();
        if is_counted(e) {
            add_time(m, category_name(e.category->0), e.duration_ms->0 as nat)
        } else {
            m
        }
    }
}

/// The entries, in order, that the events' times per name are collected into: a name
/// takes its place when it is first met.
pub open spec fn events_entries(evs: Seq<CategoryEvent>) -> Seq<(Seq<char>, nat)>
    decreases evs.len(),
{
    if evs.len() == 0 {
        Seq::empty()
    } else {
        let s = events_entries(evs.drop_last());
        let e = evs.last();
        if is_counted(e) {
            entries_add(s, category_name(e.category->0), e.duration_ms->0 as nat)
        } else {
            s
        }
    }
}

/// The entries, in order, of a collected query result: the events' entries, then "All"
/// set as `collected_times` sets it.
pub open spec fn collected_entries(evs: Seq<CategoryEvent>, total: Option<u64>) -> Seq<(Seq<char>, nat)> {
    entries_insert(events_entries(evs), all_name(), match total {
        Some(t) => t as nat,
        None => events_total(evs),
    })
}

/// The sum of the durations of the events that count.
pub open spec fn events_total(evs: Seq<CategoryEvent>) -> nat
    decreases evs.len(),
{
    if evs.len() == 0 {
        0
    } else {
        events_total(evs.drop_last()) + if is_counted(evs.last()) { evs.last().duration_ms->0 as nat } else { 0 }
    }
}

/// The time per category of a query result: the events' times per name, and "All" set to
/// the reported total, or else to the sum of the events' times, or else to zero.
pub open spec fn collected_times(evs: Seq<CategoryEvent>, total: Option<u64>) -> Map<Seq<char>, nat> {
    let m = events_fold(evs);
    match total {
        Some(t) => m.insert(all_name(), t as nat),
        None => m.insert(all_name(), events_total(evs)),
    }
}

/// The time per category under an aggregation mode.
pub open spec fn aggregated(s: Seq<(Seq<char>, nat)>, m: Map<Seq<char>, nat>, mode: CategoryAggregation) -> Map<Seq<char>, nat> {
    match mode {
        CategoryAggregation::Full => m,
        CategoryAggregation::TopLevelOnly => top_level_fold(s),
        CategoryAggregation::AllLevels => all_levels_fold(s),
    }
}

pub proof fn lemma_events_total_take(evs: Seq<CategoryEvent>, j: int)
    requires
        0 <= j <= evs.len(),
    ensures
        events_total(evs.take(j)) <= events_total(evs),
        j < evs.len() ==> events_total(evs.take(j + 1)) == events_total(evs.take(j))
            + if is_counted(evs[j]) { evs[j].duration_ms->0 as nat } else { 0 },
    decreases evs.len(),
{
    if j < evs.len() {
        assert(evs.take(j + 1).drop_last() =~= evs.take(j));
        lemma_events_total_take(evs.drop_last(), j);
        assert(evs.drop_last().take(j) =~= evs.take(j));
    } else {
        assert(evs.take(j) =~= evs);
    }
}

/// The name of a category, as `category_name` states it.
pub fn event_category_name(c: &EventCategory) -> (r: String)
    ensures
        r@ == category_name(*c),
{
    match c {
        EventCategory::Path(parts) => {
            let mut strings: Vec<String> = Vec::new();
            let n = parts.len();
            for i in 0..n
                invariant
                    n == parts@.len(),
                    views(strings@) == string_parts(parts@.take(i as int)),
            {
                assert(parts@.take(i + 1).drop_last() =~= parts@.take(i as int));
                match &parts[i] {
                    Some(s) => {
                        let ghost old_strings = strings@;
                        strings.push(s.clone());
                        assert(views(strings@) =~= views(old_strings).push(s@));
                    },
                    None => {},
                }
            }
            assert(parts@.take(n as int) =~= parts@);
            if strings.len() > 0 {
                crate::text::join_strings(&strings, " > ")
            } else {
                String::from_str("Unknown")
            }
        },
        EventCategory::Name(s) => s.clone(),
        EventCategory::Other => String::from_str("Unknown"),
    }
}

/// The time per category of a query result: each counted event's duration is added to its
/// category's name; "All" is then set to `total` where the result reports one, or else to
/// the sum of the events' durations (zero where no event counts).
pub fn collect_category_times(events: &Vec<CategoryEvent>, total: Option<u64>) -> (r: CategoryTimes)
    requires
        events_total(events@) <= u64::MAX,
    ensures
        r.wf(),
        r@ == collected_times(events@, total),
        r.entries() == collected_entries(events@, total),
        r.total() <= events_total(events@) + match total {
            Some(t) => t as nat,
            None => events_total(events@),
        },
{
    let ghost evs = events@;
    let mut out = CategoryTimes::new();
    let n = events.len();
    let mut sum: u64 = 0;
    for j in 0..n
        invariant
            n == evs.len(),
            evs == events@,
            events_total(evs) <= u64::MAX,
            out.wf(),
            out@ == events_fold(evs.take(j as int)),
            out.entries() == events_entries(evs.take(j as int)),
            out.total() == events_total(evs.take(j as int)),
            sum == events_total(evs.take(j as int)),
    {
        proof {
            lemma_events_total_take(evs, j as int);
            lemma_events_total_take(evs, j + 1);
        }
        assert(evs.take(j + 1).drop_last() =~= evs.take(j as int));
        assert(evs.take(j + 1).last() == evs[j as int]);
        let e = &events[j];
        match (&e.category, e.duration_ms) {
            (Some(c), Some(d)) => {
                let name = event_category_name(c);
                proof {
                    if out@.contains_key(name@) {
                        out.lemma_value_le_total(name@);
                    }
                }
                out.add(name, d);
                sum = sum + d;
            },
            _ => {},
        }
    }
    assert(evs.take(n as int) =~= evs);
    let value = match total {
        Some(t) => t,
        None => sum,
    };
    proof {
        if out@.contains_key(all_name()) {
            out.lemma_value_le_total(all_name());
        }
    }
    out.insert(all_string(), value);
    out
}

/// The time per category under `mode`: as it is, by top level, or by all levels.
pub fn aggregate_times(times: CategoryTimes, mode: CategoryAggregation) -> (r: CategoryTimes)
    requires
        times.wf(),
        times.total() <= u64::MAX,
    ensures
        r.wf(),
        r@ == aggregated(times.entries(), times@, mode),
        mode == CategoryAggregation::Full ==> r.entries() == times.entries(),
{
    match mode {
        CategoryAggregation::Full => times,
        CategoryAggregation::TopLevelOnly => aggregate_categories_by_top_level(&times),
        CategoryAggregation::AllLevels => aggregate_categories_by_all_levels(&times),
    }
}


/// Asking for an aggregation mode gives what aggregating the unaggregated result gives:
/// given the same events and total, the table collected without aggregation (its entries as
/// `collect_category_times` gives them) and the tables collected under the top-level and
/// all-levels modes, the latter are the top-level and all-levels aggregations of the former.
pub proof fn law_query_modes(
    evs: Seq<CategoryEvent>,
    total: Option<u64>,
    full: CategoryTimes,
    top: CategoryTimes,
    levels: CategoryTimes,
)
    requires
        full.entries() == collected_entries(evs, total),
        top@ == aggregated(collected_entries(evs, total), table_map(collected_entries(evs, total)), CategoryAggregation::TopLevelOnly),
        levels@ == aggregated(collected_entries(evs, total), table_map(collected_entries(evs, total)), CategoryAggregation::AllLevels),
    ensures
        top@ == top_level_fold(full.entries()),
        levels@ == all_levels_fold(full.entries()),
{
}

proof fn lemma_string_parts_empty(parts: Seq<Option<String>>)
    ensures
        string_parts(parts).len() == 0 <==> forall|i: int| 0 <= i < parts.len() ==> (#[trigger] parts[i]) is None,
    decreases parts.len(),
{
    if parts.len() > 0 {
        lemma_string_parts_empty(parts.drop_last());
        if string_parts(parts).len() == 0 {
            assert forall|i: int| 0 <= i < parts.len() implies (#[trigger] parts[i]) is None by {
                if i < parts.len() - 1 {
                    assert(parts.drop_last()[i] == parts[i]);
                }
            }
        } else if parts.last() is None {
            let i = choose|i: int| 0 <= i < parts.drop_last().len() && (#[trigger] parts.drop_last()[i]) is Some;
            assert(parts[i] is Some);
        }
    }
}

/// The name of a path category is built from its parts in order: a path with no string
/// part is named "Unknown"; a part that is not a string adds nothing to the name; a string
/// part after no string part is the whole name, and one after a string part adds " > " and
/// itself to the name.
pub proof fn law_path_name(a: Vec<Option<String>>, b: Vec<Option<String>>, x: Option<String>)
    requires
        b@ == a@.push(x),
    ensures
        (forall|i: int| 0 <= i < a@.len() ==> (#[trigger] a@[i]) is None)
            ==> category_name(EventCategory::Path(a)) == "Unknown"@,
        x is None ==> category_name(EventCategory::Path(b)) == category_name(EventCategory::Path(a)),
        (x is Some && forall|i: int| 0 <= i < a@.len() ==> (#[trigger] a@[i]) is None)
            ==> category_name(EventCategory::Path(b)) == x->0@,
        (x is Some && exists|i: int| 0 <= i < a@.len() && (#[trigger] a@[i]) is Some)
            ==> category_name(EventCategory::Path(b)) == category_name(EventCategory::Path(a)) + " > "@ + x->0@,
{
    lemma_string_parts_empty(a@);
    assert(b@.drop_last() =~= a@);
    assert(b@.last() == x);
    if let Some(s) = x {
        let sa = string_parts(a@);
        assert(string_parts(b@) == sa.push(s@));
        assert(sa.push(s@).drop_last() =~= sa);
        if sa.len() == 0 {
            assert(sa.push(s@) =~= seq![s@]);
        }
    }
}

} // verus!
