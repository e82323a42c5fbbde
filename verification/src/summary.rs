//! Summaries of the time spent: the top categories and the messages that show them.

use vstd::prelude::*;
use vstd::string::*;
use crate::table::{CategoryTimes, keys_unique};
use crate::category::{
    aggregate_categories_by_top_level, all_name, all_string, last_component, last_component_name,
    top_level_fold,
};
use crate::category_laws::value_at;
use crate::text::{hms, join, to_hms, views};

verus! {

/// The least share of the total, in basis points (hundredths of a percent), that a
/// category needs to appear in a summary.
pub const MIN_SHARE_BP: u64 = 200u64;

/// The number of categories in a summary.
pub const SUMMARY_COUNT: usize = 4usize;

/// The number of categories in a detailed summary.
pub const DETAILED_SUMMARY_COUNT: usize = 10usize;

/// The total time of a table: the duration recorded for "All", zero where it is missing.
pub open spec fn total_of(m: Map<Seq<char>, nat>) -> nat {
    value_at(m, all_name())
}

/// `k` may appear among the top categories of `m`: it is not "All", the total is positive,
/// and its time is more than `bp` basis points of the total.
pub open spec fn is_top_candidate(m: Map<Seq<char>, nat>, k: Seq<char>, bp: nat) -> bool {
    &&& k != all_name()
    &&& m.contains_key(k)
    &&& total_of(m) > 0
    &&& m[k] * 10000 > total_of(m) * bp
}

/// `l` lists top categories of `m` with their formatted times: at most `max` distinct
/// candidates, by time from most to least, and every candidate left out has no more time
/// than any listed one (and is left out only where the list is full).
pub open spec fn is_top_list(m: Map<Seq<char>, nat>, bp: nat, max: nat, l: Seq<(Seq<char>, Seq<char>)>) -> bool {
    &&& l.len() <= max
    &&& forall|j: int| 0 <= j < l.len() ==> is_top_candidate(m, #[trigger] l[j].0, bp)
    &&& forall|j: int| 0 <= j < l.len() ==> (#[trigger] l[j]).1 == hms(m[l[j].0] / 1000)
    &&& forall|a: int, b: int| 0 <= a < b < l.len() ==> #[trigger] l[a].0 != #[trigger] l[b].0
    &&& forall|a: int, b: int| 0 <= a < b < l.len() ==> m[#[trigger] l[a].0] >= m[#[trigger] l[b].0]
    &&& forall|k: Seq<char>| is_top_candidate(m, k, bp) && !(exists|j: int| 0 <= j < l.len() && #[trigger] l[j].0 == k)
        ==> l.len() == max && forall|j: int| 0 <= j < l.len() ==> m[k] <= m[#[trigger] l[j].0]
}

/// The views of a sequence of string pairs.
pub open spec fn pair_views(v: Seq<(String, String)>) -> Seq<(Seq<char>, Seq<char>)> {
    v.map_values(|p: (String, String)| (p.0@, p.1@))
}

/// The entry at `i` of `s` is a top candidate, `total` being the table's total.
pub open spec fn entry_candidate(s: Seq<(Seq<char>, nat)>, i: int, total: nat, bp: nat) -> bool {
    &&& s[i].0 != all_name()
    &&& total > 0
    &&& s[i].1 * 10000 > total * bp
}

/// Gets the top categories by time, with their durations formatted: at most `max_count`
/// categories other than "All" whose time is more than `min_share_bp` basis points of the
/// "All" total, from most time to least.
pub fn get_top_categories(cat_time: &CategoryTimes, min_share_bp: u64, max_count: usize) -> (r: Vec<(String, String)>)
    requires
        cat_time.wf(),
    ensures
        is_top_list(cat_time@, min_share_bp as nat, max_count as nat, pair_views(r@)),
{
    let ghost s = cat_time.entries();
    let ghost m = cat_time@;
    let all = all_string();
    let total = match cat_time.get(&all) {
        Some(t) => t,
        None => 0,
    };
    assert(total == total_of(m));
    assert((total as u128) * (min_share_bp as u128) <= u128::MAX) by (nonlinear_arith)
        requires total <= u64::MAX, min_share_bp <= u64::MAX;
    let limit: u128 = (total as u128) * (min_share_bp as u128);
    let n = cat_time.len();
    let mut chosen: Vec<bool> = Vec::new();
    for i in 0..n
        invariant
            chosen@.len() == i,
            forall|a: int| 0 <= a < i ==> !#[trigger] chosen@[a],
    {
        chosen.push(false);
    }
    let mut picks: Vec<usize> = Vec::new();
    let mut done = total == 0;
    while picks.len() < max_count && !done
        invariant
            n == s.len(),
            s == cat_time.entries(),
            keys_unique(s),
            total == total_of(m),
            all@ == all_name(),
            limit == total * min_share_bp,
            total == 0 ==> done,
            chosen@.len() == n,
            picks@.len() <= max_count,
            forall|a: int| 0 <= a < picks@.len() ==> #[trigger] picks@[a] < n,
            forall|a: int, b: int| 0 <= a < b < picks@.len() ==> #[trigger] picks@[a] != #[trigger] picks@[b],
            forall|i: int| 0 <= i < n ==> (#[trigger] chosen@[i] <==> exists|a: int| 0 <= a < picks@.len() && #[trigger] picks@[a] == i),
            forall|a: int| 0 <= a < picks@.len() ==> entry_candidate(s, #[trigger] picks@[a] as int, total as nat, min_share_bp as nat),
            forall|a: int, b: int| 0 <= a < b < picks@.len() ==> s[#[trigger] picks@[a] as int].1 >= s[#[trigger] picks@[b] as int].1,
            forall|i: int| 0 <= i < n && !chosen@[i] && entry_candidate(s, i, total as nat, min_share_bp as nat) && picks@.len() > 0
                ==> s[i].1 <= s[picks@[picks@.len() - 1] as int].1,
            done ==> forall|i: int| 0 <= i < n && !chosen@[i] ==> !entry_candidate(s, i, total as nat, min_share_bp as nat),
        decreases max_count - picks@.len(), if done { 0int } else { 1int },
    {
        let mut best: Option<usize> = None;
        for i in 0..n
            invariant
                n == s.len(),
                s == cat_time.entries(),
                chosen@.len() == n,
                all@ == all_name(),
                limit == total * min_share_bp,
                total > 0,
                match best {
                    Some(b) => b < i && !chosen@[b as int] && entry_candidate(s, b as int, total as nat, min_share_bp as nat)
                        && forall|x: int| 0 <= x < i && !chosen@[x] && entry_candidate(s, x, total as nat, min_share_bp as nat)
                            ==> s[x].1 <= s[b as int].1,
                    None => forall|x: int| 0 <= x < i && !chosen@[x] ==> !entry_candidate(s, x, total as nat, min_share_bp as nat),
                },
        {
            let t = cat_time.time_at(i);
            let is_candidate = !chosen[i] && *cat_time.name_at(i) != all
                && (t as u128) * 10000 > limit;
            assert(is_candidate == (!chosen@[i as int] && entry_candidate(s, i as int, total as nat, min_share_bp as nat)));
            let ghost old_best = best;
            if is_candidate {
                match best {
                    Some(b) => {
                        if t > cat_time.time_at(b) {
                            best = Some(i);
                        }
                    },
                    None => {
                        best = Some(i);
                    },
                }
            }
            proof {
                match best {
                    Some(b) => {
                        assert forall|x: int| 0 <= x < i + 1 && !chosen@[x] && entry_candidate(s, x, total as nat, min_share_bp as nat)
                            implies s[x].1 <= s[b as int].1 by {
                            if x < i {
                                match old_best {
                                    Some(ob) => { assert(s[x].1 <= s[ob as int].1); },
                                    None => {},
                                }
                            }
                        }
                    },
                    None => {},
                }
            }
        }
        match best {
            None => {
                done = true;
            },
            Some(b) => {
                let ghost old_picks = picks@;
                let ghost old_chosen = chosen@;
                chosen.set(b, true);
                picks.push(b);
                proof {
                    assert forall|i: int| 0 <= i < n implies (#[trigger] chosen@[i] <==> exists|a: int| 0 <= a < picks@.len() && #[trigger] picks@[a] == i) by {
                        if i == b {
                            assert(picks@[picks@.len() - 1] == i);
                        } else {
                            assert(chosen@[i] == old_chosen[i]);
                            if old_chosen[i] {
                                let a = choose|a: int| 0 <= a < old_picks.len() && #[trigger] old_picks[a] == i;
                                assert(picks@[a] == i);
                            }
                            if exists|a: int| 0 <= a < picks@.len() && #[trigger] picks@[a] == i {
                                let a = choose|a: int| 0 <= a < picks@.len() && #[trigger] picks@[a] == i;
                                assert(a < old_picks.len());
                                assert(old_picks[a] == i);
                            }
                        }
                    }
                    assert forall|a: int, c: int| 0 <= a < c < picks@.len() implies #[trigger] picks@[a] != #[trigger] picks@[c] by {
                        if c == picks@.len() - 1 {
                            assert(old_picks[a] == picks@[a]);
                            assert(old_chosen[old_picks[a] as int]);
                        } else {
                            assert(old_picks[a] == picks@[a] && old_picks[c] == picks@[c]);
                        }
                    }
                    assert forall|a: int, c: int| 0 <= a < c < picks@.len() implies s[#[trigger] picks@[a] as int].1 >= s[#[trigger] picks@[c] as int].1 by {
                        if c == picks@.len() - 1 {
                            assert(old_picks[a] == picks@[a]);
                            if a < old_picks.len() - 1 {
                                assert(s[old_picks[a] as int].1 >= s[old_picks[old_picks.len() - 1] as int].1);
                            }
                        } else {
                            assert(old_picks[a] == picks@[a] && old_picks[c] == picks@[c]);
                        }
                    }
                    assert forall|a: int| 0 <= a < picks@.len() implies entry_candidate(s, #[trigger] picks@[a] as int, total as nat, min_share_bp as nat) by {
                        if a < old_picks.len() { assert(old_picks[a] == picks@[a]); }
                    }
                }
            },
        }
    }
    // Every candidate left out is no larger than every pick.
    assert forall|i: int, a: int| #![trigger chosen@[i], picks@[a]] 0 <= i < n && !chosen@[i] && entry_candidate(s, i, total as nat, min_share_bp as nat)
        && 0 <= a < picks@.len() implies s[i].1 <= s[picks@[a] as int].1 by {
        if a < picks@.len() - 1 {
            assert(s[picks@[a] as int].1 >= s[picks@[picks@.len() - 1] as int].1);
        }
    }
    let mut r: Vec<(String, String)> = Vec::new();
    let k = picks.len();
    for j in 0..k
        invariant
            k == picks@.len(),
            n == s.len(),
            s == cat_time.entries(),
            forall|a: int| 0 <= a < picks@.len() ==> #[trigger] picks@[a] < n,
            r@.len() == j,
            forall|a: int| 0 <= a < j ==> (#[trigger] pair_views(r@)[a]).0 == s[picks@[a] as int].0
                && pair_views(r@)[a].1 == hms(s[picks@[a] as int].1 / 1000),
    {
        let p = picks[j];
        let name = cat_time.name_at(p).clone();
        let time = to_hms(cat_time.time_at(p) / 1000);
        let ghost old_r = r@;
        let ghost pair = (name@, time@);
        r.push((name, time));
        assert(pair_views(r@) =~= pair_views(old_r).push(pair));
    }
    proof {
        let l = pair_views(r@);
        assert forall|a: int| 0 <= a < picks@.len() implies cat_time@.contains_key(s[#[trigger] picks@[a] as int].0)
            && cat_time@[s[picks@[a] as int].0] == s[picks@[a] as int].1 by {
            cat_time.lemma_view_index(picks@[a] as int);
        }
        assert forall|j: int| 0 <= j < l.len() implies is_top_candidate(m, #[trigger] l[j].0, min_share_bp as nat) by {
            assert(entry_candidate(s, picks@[j] as int, total as nat, min_share_bp as nat));
        }
        assert forall|a: int, b: int| 0 <= a < b < l.len() implies #[trigger] l[a].0 != #[trigger] l[b].0 by {
            assert(picks@[a] != picks@[b]);
        }
        assert forall|a: int, b: int| 0 <= a < b < l.len() implies m[#[trigger] l[a].0] >= m[#[trigger] l[b].0] by {
            assert(s[picks@[a] as int].1 >= s[picks@[b] as int].1);
        }
        assert forall|k: Seq<char>| is_top_candidate(m, k, min_share_bp as nat)
            && !(exists|j: int| 0 <= j < l.len() && #[trigger] l[j].0 == k)
            implies l.len() == max_count && forall|j: int| 0 <= j < l.len() ==> m[k] <= m[#[trigger] l[j].0] by {
            cat_time.lemma_view_contains(k);
            let i = choose|i: int| 0 <= i < s.len() && #[trigger] s[i].0 == k;
            cat_time.lemma_view_index(i);
            assert(entry_candidate(s, i, total as nat, min_share_bp as nat));
            if chosen@[i] {
                let a = choose|a: int| 0 <= a < picks@.len() && #[trigger] picks@[a] == i;
                assert(l[a].0 == k);
            }
            assert(!done);
            assert forall|j: int| 0 <= j < l.len() implies m[k] <= m[#[trigger] l[j].0] by {
                assert(chosen@[i] == false);
                assert(s[i].1 <= s[picks@[j] as int].1);
            }
        }
    }
    r
}


/// What `str::to_lowercase` gives for a string: its Unicode lower-case mapping.
pub uninterp spec fn lowercase_of(s: Seq<char>) -> Seq<char>;

/// Every character of `s` is ASCII.
pub open spec fn is_ascii_text(s: Seq<char>) -> bool {
    forall|i: int| 0 <= i < s.len() ==> (#[trigger] s[i] as int) < 128
}

/// The ASCII lower case of a character: 'A' to 'Z' become 'a' to 'z', others stay.
pub open spec fn ascii_lower_char(c: char) -> char {
    if 65 <= (c as int) <= 90 { ((c as int) + 32) as char } else { c }
}

/// The ASCII lower case of a string, character by character.
pub open spec fn ascii_lowercase(s: Seq<char>) -> Seq<char> {
    s.map_values(|c: char| ascii_lower_char(c))
}

/// Calls `str::to_lowercase`; its result is named by `lowercase_of`, a function of the
/// string alone. Of the Unicode mapping only the ASCII part is stated: on an ASCII string
/// it maps 'A' to 'Z' to 'a' to 'z' and keeps every other character.
#[verifier::external_body]
fn to_lowercase(s: &str) -> (r: String)
    ensures
        r@ == lowercase_of(s@),
        is_ascii_text(s@) ==> r@ == ascii_lowercase(s@),
{
    s.to_lowercase()
}

/// The icon for a lower-case category name.
pub open spec fn icon_of(lower: Seq<char>) -> Seq<char> {
    if lower == "work"@ {
        "💼"@
    } else if lower == "programming"@ || lower == "development"@ || lower == "coding"@ {
        "💻"@
    } else if lower == "media"@ || lower == "entertainment"@ {
        "📱"@
    } else if lower == "games"@ || lower == "gaming"@ {
        "🎮"@
    } else if lower == "video"@ || lower == "youtube"@ || lower == "netflix"@ {
        "📺"@
    } else if lower == "music"@ || lower == "spotify"@ || lower == "audio"@ {
        "🎵"@
    } else if lower == "social"@ || lower == "twitter"@ || lower == "facebook"@ || lower == "instagram"@ {
        "💬"@
    } else if lower == "communication"@ || lower == "email"@ || lower == "slack"@ || lower == "discord"@ {
        "📧"@
    } else if lower == "browsing"@ || lower == "web"@ {
        "🌐"@
    } else if lower == "reading"@ {
        "📖"@
    } else if lower == "writing"@ {
        "✍️"@
    } else if lower == "design"@ || lower == "graphics"@ {
        "🎨"@
    } else if lower == "learning"@ || lower == "education"@ {
        "📚"@
    } else {
        "📊"@
    }
}

fn is_word(l: &String, word: &str) -> (b: bool)
    ensures
        b == (l@ == word@),
{
    *l == String::from_str(word)
}

/// The icon for a category name that is already in lower case.
pub fn icon_for_lowercase(lower: &str) -> (r: &'static str)
    ensures
        r@ == icon_of(lower@),
{
    let l = String::from_str(lower);
    if is_word(&l, "work") {
        "💼"
    } else if is_word(&l, "programming") || is_word(&l, "development") || is_word(&l, "coding") {
        "💻"
    } else if is_word(&l, "media") || is_word(&l, "entertainment") {
        "📱"
    } else if is_word(&l, "games") || is_word(&l, "gaming") {
        "🎮"
    } else if is_word(&l, "video") || is_word(&l, "youtube") || is_word(&l, "netflix") {
        "📺"
    } else if is_word(&l, "music") || is_word(&l, "spotify") || is_word(&l, "audio") {
        "🎵"
    } else if is_word(&l, "social") || is_word(&l, "twitter") || is_word(&l, "facebook") || is_word(&l, "instagram") {
        "💬"
    } else if is_word(&l, "communication") || is_word(&l, "email") || is_word(&l, "slack") || is_word(&l, "discord") {
        "📧"
    } else if is_word(&l, "browsing") || is_word(&l, "web") {
        "🌐"
    } else if is_word(&l, "reading") {
        "📖"
    } else if is_word(&l, "writing") {
        "✍️"
    } else if is_word(&l, "design") || is_word(&l, "graphics") {
        "🎨"
    } else if is_word(&l, "learning") || is_word(&l, "education") {
        "📚"
    } else {
        "📊"
    }
}

/// The icon for a category, chosen by its name in lower case.
pub fn get_category_icon(category: &str) -> (r: &'static str)
    ensures
        r@ == icon_of(lowercase_of(category@)),
        is_ascii_text(category@) ==> r@ == icon_of(ascii_lowercase(category@)),
{
    let lower = to_lowercase(category);
    icon_for_lowercase(lower.as_str())
}

/// On ASCII names the icon does not depend on case: a name and its lower case get the
/// same icon.
pub proof fn law_icon_ignores_ascii_case(c: Seq<char>)
    requires
        is_ascii_text(c),
    ensures
        is_ascii_text(ascii_lowercase(c)),
        icon_of(ascii_lowercase(ascii_lowercase(c))) == icon_of(ascii_lowercase(c)),
{
    let l = ascii_lowercase(c);
    assert forall|i: int| 0 <= i < l.len() implies (#[trigger] l[i] as int) < 128 by {
        assert((c[i] as int) < 128);
    }
    assert(ascii_lowercase(l) =~= l);
}

/// A category name with the icon of its last component in front.
pub open spec fn formatted_category(c: Seq<char>) -> Seq<char> {
    icon_of(lowercase_of(last_component(c))) + " "@ + c
}

/// Formats a category name with the icon of its last component in front ("💼 Work",
/// "💻 Work > Programming").
pub fn format_category_for_notification(category: &str) -> (r: String)
    ensures
        r@ == formatted_category(category@),
{
    let last = last_component_name(category);
    let mut r = String::from_str(get_category_icon(last.as_str()));
    r.append(" ");
    r.append(category);
    r
}

/// Category names are shown as they are: there are no escapes to decode.
pub fn decode_unicode_escapes(s: &str) -> (r: String)
    ensures
        r@ == s@,
{
    String::from_str(s)
}

/// A list of top categories with each name formatted with its icon.
pub open spec fn with_icons(l: Seq<(Seq<char>, Seq<char>)>) -> Seq<(Seq<char>, Seq<char>)> {
    l.map_values(|p: (Seq<char>, Seq<char>)| (formatted_category(p.0), p.1))
}

fn add_icons(top: Vec<(String, String)>) -> (r: Vec<(String, String)>)
    ensures
        pair_views(r@) == with_icons(pair_views(top@)),
{
    let mut r: Vec<(String, String)> = Vec::new();
    let n = top.len();
    for j in 0..n
        invariant
            n == top@.len(),
            pair_views(r@) == with_icons(pair_views(top@)).take(j as int),
    {
        let name = format_category_for_notification(top[j].0.as_str());
        let time = top[j].1.clone();
        let ghost old_r = r@;
        let ghost pair = (name@, time@);
        r.push((name, time));
        assert(pair_views(r@) =~= pair_views(old_r).push(pair));
        assert(with_icons(pair_views(top@)).take(j + 1) =~= with_icons(pair_views(top@)).take(j as int).push(pair));
    }
    assert(with_icons(pair_views(top@)).take(n as int) =~= with_icons(pair_views(top@)));
    r
}

/// The top categories after aggregating by top level, with icons, for notifications.
pub fn get_top_level_categories_for_notifications(cat_time: &CategoryTimes, min_share_bp: u64, max_count: usize) -> (r: Vec<(String, String)>)
    requires
        cat_time.wf(),
        cat_time.total() <= u64::MAX,
    ensures
        exists|top: Seq<(Seq<char>, Seq<char>)>|
            is_top_list(top_level_fold(cat_time.entries()), min_share_bp as nat, max_count as nat, top)
            && pair_views(r@) == with_icons(top),
{
    let aggregated = aggregate_categories_by_top_level(cat_time);
    let top = get_top_categories(&aggregated, min_share_bp, max_count);
    let ghost witness = pair_views(top@);
    let r = add_icons(top);
    assert(is_top_list(top_level_fold(cat_time.entries()), min_share_bp as nat, max_count as nat, witness));
    r
}

/// The top categories of a table aggregated by all levels, with icons, for notifications.
pub fn get_all_level_categories_for_notifications(cat_time: &CategoryTimes, min_share_bp: u64, max_count: usize) -> (r: Vec<(String, String)>)
    requires
        cat_time.wf(),
    ensures
        exists|top: Seq<(Seq<char>, Seq<char>)>|
            is_top_list(cat_time@, min_share_bp as nat, max_count as nat, top)
            && pair_views(r@) == with_icons(top),
{
    let top = get_top_categories(cat_time, min_share_bp, max_count);
    let ghost witness = pair_views(top@);
    let r = add_icons(top);
    assert(is_top_list(cat_time@, min_share_bp as nat, max_count as nat, witness));
    r
}

/// The lines of a summary message: "- name: time" for each category.
pub open spec fn summary_lines(l: Seq<(Seq<char>, Seq<char>)>) -> Seq<Seq<char>> {
    l.map_values(|p: (Seq<char>, Seq<char>)| "- "@ + p.0 + ": "@ + p.1)
}

/// The message of a summary: one line "- name: time" per category; none for no category.
pub fn summary_message(top: &Vec<(String, String)>) -> (r: Option<String>)
    ensures
        match r {
            Some(m) => top@.len() > 0 && m@ == join(summary_lines(pair_views(top@)), "\n"@),
            None => top@.len() == 0,
        },
{
    if top.len() == 0 {
        return None;
    }
    let mut lines: Vec<String> = Vec::new();
    let n = top.len();
    for j in 0..n
        invariant
            n == top@.len(),
            views(lines@) == summary_lines(pair_views(top@)).take(j as int),
    {
        let mut line = String::from_str("- ");
        let name = decode_unicode_escapes(top[j].0.as_str());
        line.append(name.as_str());
        line.append(": ");
        line.append(top[j].1.as_str());
        let ghost old_lines = lines@;
        let ghost lv = line@;
        lines.push(line);
        assert(views(lines@) =~= views(old_lines).push(lv));
        assert(summary_lines(pair_views(top@)).take(j + 1) =~= summary_lines(pair_views(top@)).take(j as int).push(lv));
    }
    assert(summary_lines(pair_views(top@)).take(n as int) =~= summary_lines(pair_views(top@)));
    Some(crate::text::join_strings(&lines, "\n"))
}

/// The message of a check-in: the top categories by top level, by more than two percent
/// of the total, at most four; none where no category qualifies.
pub fn checkin_message(cat_time: &CategoryTimes) -> (r: Option<String>)
    requires
        cat_time.wf(),
        cat_time.total() <= u64::MAX,
    ensures
        exists|top: Seq<(Seq<char>, Seq<char>)>|
            is_top_list(top_level_fold(cat_time.entries()), MIN_SHARE_BP as nat, SUMMARY_COUNT as nat, top)
            && match r {
                Some(m) => top.len() > 0 && m@ == join(summary_lines(with_icons(top)), "\n"@),
                None => top.len() == 0,
            },
{
    let top = get_top_level_categories_for_notifications(cat_time, MIN_SHARE_BP, SUMMARY_COUNT);
    let ghost w = choose|w: Seq<(Seq<char>, Seq<char>)>|
        is_top_list(top_level_fold(cat_time.entries()), MIN_SHARE_BP as nat, SUMMARY_COUNT as nat, w)
        && pair_views(top@) == with_icons(w);
    assert(pair_views(top@).len() == top@.len());
    let r = summary_message(&top);
    assert(is_top_list(top_level_fold(cat_time.entries()), MIN_SHARE_BP as nat, SUMMARY_COUNT as nat, w));
    r
}

/// The message of a detailed check-in on a table aggregated by all levels: the top
/// categories by more than two percent of the total, at most ten; none where no category
/// qualifies.
pub fn detailed_checkin_message(cat_time: &CategoryTimes) -> (r: Option<String>)
    requires
        cat_time.wf(),
    ensures
        exists|top: Seq<(Seq<char>, Seq<char>)>|
            is_top_list(cat_time@, MIN_SHARE_BP as nat, DETAILED_SUMMARY_COUNT as nat, top)
            && match r {
                Some(m) => top.len() > 0 && m@ == join(summary_lines(with_icons(top)), "\n"@),
                None => top.len() == 0,
            },
{
    let top = get_all_level_categories_for_notifications(cat_time, MIN_SHARE_BP, DETAILED_SUMMARY_COUNT);
    let ghost w = choose|w: Seq<(Seq<char>, Seq<char>)>|
        is_top_list(cat_time@, MIN_SHARE_BP as nat, DETAILED_SUMMARY_COUNT as nat, w)
        && pair_views(top@) == with_icons(w);
    assert(pair_views(top@).len() == top@.len());
    let r = summary_message(&top);
    assert(is_top_list(cat_time@, MIN_SHARE_BP as nat, DETAILED_SUMMARY_COUNT as nat, w));
    r
}

/// A summary message has one line per category listed, in order: the line for the
/// category `l[i]` is "- ", its name, ": " and its time.
pub proof fn law_summary_one_line_per_category(l: Seq<(Seq<char>, Seq<char>)>)
    ensures
        summary_lines(l).len() == l.len(),
        forall|i: int| 0 <= i < l.len() ==> #[trigger] summary_lines(l)[i] == "- "@ + l[i].0 + ": "@ + l[i].1,
{
    let f = |p: (Seq<char>, Seq<char>)| "- "@ + p.0 + ": "@ + p.1;
    assert(summary_lines(l) == l.map_values(f));
    assert(l.map_values(f).len() == l.len());
    assert forall|i: int| 0 <= i < l.len() implies #[trigger] summary_lines(l)[i] == "- "@ + l[i].0 + ": "@ + l[i].1 by {
        assert(l.map_values(f)[i] == f(l[i]));
    }
}

/// The icon table: each listed lower-case name has its icon, and every other name has the
/// default icon "📊".
pub proof fn law_icon_table(c: Seq<char>)
    ensures
        (c == "work"@) ==> icon_of(c) == "💼"@,
        (c == "programming"@ || c == "development"@ || c == "coding"@) ==> icon_of(c) == "💻"@,
        (c == "media"@ || c == "entertainment"@) ==> icon_of(c) == "📱"@,
        (c == "games"@ || c == "gaming"@) ==> icon_of(c) == "🎮"@,
        (c == "video"@ || c == "youtube"@ || c == "netflix"@) ==> icon_of(c) == "📺"@,
        (c == "music"@ || c == "spotify"@ || c == "audio"@) ==> icon_of(c) == "🎵"@,
        (c == "social"@ || c == "twitter"@ || c == "facebook"@ || c == "instagram"@) ==> icon_of(c) == "💬"@,
        (c == "communication"@ || c == "email"@ || c == "slack"@ || c == "discord"@) ==> icon_of(c) == "📧"@,
        (c == "browsing"@ || c == "web"@) ==> icon_of(c) == "🌐"@,
        (c == "reading"@) ==> icon_of(c) == "📖"@,
        (c == "writing"@) ==> icon_of(c) == "✍️"@,
        (c == "design"@ || c == "graphics"@) ==> icon_of(c) == "🎨"@,
        (c == "learning"@ || c == "education"@) ==> icon_of(c) == "📚"@,
        (c != "work"@ && c != "programming"@ && c != "development"@ && c != "coding"@ && c != "media"@ && c != "entertainment"@ && c != "games"@ && c != "gaming"@ && c != "video"@ && c != "youtube"@ && c != "netflix"@ && c != "music"@ && c != "spotify"@ && c != "audio"@ && c != "social"@ && c != "twitter"@ && c != "facebook"@ && c != "instagram"@ && c != "communication"@ && c != "email"@ && c != "slack"@ && c != "discord"@ && c != "browsing"@ && c != "web"@ && c != "reading"@ && c != "writing"@ && c != "design"@ && c != "graphics"@ && c != "learning"@ && c != "education"@) ==> icon_of(c) == "📊"@,
{
    reveal_strlit("work");
    reveal_strlit("programming");
    reveal_strlit("development");
    reveal_strlit("coding");
    reveal_strlit("media");
    reveal_strlit("entertainment");
    reveal_strlit("games");
    reveal_strlit("gaming");
    reveal_strlit("video");
    reveal_strlit("youtube");
    reveal_strlit("netflix");
    reveal_strlit("music");
    reveal_strlit("spotify");
    reveal_strlit("audio");
    reveal_strlit("social");
    reveal_strlit("twitter");
    reveal_strlit("facebook");
    reveal_strlit("instagram");
    reveal_strlit("communication");
    reveal_strlit("email");
    reveal_strlit("slack");
    reveal_strlit("discord");
    reveal_strlit("browsing");
    reveal_strlit("web");
    reveal_strlit("reading");
    reveal_strlit("writing");
    reveal_strlit("design");
    reveal_strlit("graphics");
    reveal_strlit("learning");
    reveal_strlit("education");
    assert("work"@.len() == 4 && "work"@[0] == 'w');
    assert("programming"@.len() == 11 && "programming"@[0] == 'p');
    assert("development"@.len() == 11 && "development"@[0] == 'd');
    assert("coding"@.len() == 6 && "coding"@[0] == 'c');
    assert("media"@.len() == 5 && "media"@[0] == 'm');
    assert("entertainment"@.len() == 13 && "entertainment"@[0] == 'e');
    assert("games"@.len() == 5 && "games"@[0] == 'g');
    assert("gaming"@.len() == 6 && "gaming"@[0] == 'g');
    assert("video"@.len() == 5 && "video"@[0] == 'v');
    assert("youtube"@.len() == 7 && "youtube"@[0] == 'y');
    assert("netflix"@.len() == 7 && "netflix"@[0] == 'n');
    assert("music"@.len() == 5 && "music"@[0] == 'm' && "music"@[1] == 'u' && "media"@[1] == 'e');
    assert("spotify"@.len() == 7 && "spotify"@[0] == 's');
    assert("audio"@.len() == 5 && "audio"@[0] == 'a');
    assert("social"@.len() == 6 && "social"@[0] == 's');
    assert("twitter"@.len() == 7 && "twitter"@[0] == 't');
    assert("facebook"@.len() == 8 && "facebook"@[0] == 'f');
    assert("instagram"@.len() == 9 && "instagram"@[0] == 'i');
    assert("communication"@.len() == 13 && "communication"@[0] == 'c');
    assert("email"@.len() == 5 && "email"@[0] == 'e');
    assert("slack"@.len() == 5 && "slack"@[0] == 's');
    assert("discord"@.len() == 7 && "discord"@[0] == 'd');
    assert("browsing"@.len() == 8 && "browsing"@[0] == 'b');
    assert("web"@.len() == 3 && "web"@[0] == 'w');
    assert("reading"@.len() == 7 && "reading"@[0] == 'r');
    assert("writing"@.len() == 7 && "writing"@[0] == 'w');
    assert("design"@.len() == 6 && "design"@[0] == 'd');
    assert("graphics"@.len() == 8 && "graphics"@[0] == 'g');
    assert("learning"@.len() == 8 && "learning"@[0] == 'l');
    assert("education"@.len() == 9 && "education"@[0] == 'e');
}

} // verus!
