//! Category hierarchy: names such as "Work > Programming > Rust", and the
//! aggregation of a table of category times by level.

use vstd::prelude::*;
use vstd::string::*;
use crate::table::{add_time, lemma_seq_total_prefix, seq_total, CategoryTimes};
use crate::category_laws::{
    all_levels_sum, counts_for_level, counts_for_top, lemma_all_entry_kept, lemma_all_levels_sums,
    lemma_top_level_sums, top_level_sum, value_at,
};

verus! {

/// The name of the entry that holds the total time of all categories.
pub open spec fn all_name() -> Seq<char> {
    "All"@
}

/// The separator " > " starts at index `i` of `c`.
pub open spec fn sep_at(c: Seq<char>, i: int) -> bool {
    &&& 0 <= i
    &&& i + 3 <= c.len()
    &&& c[i] == ' '
    &&& c[i + 1] == '>'
    &&& c[i + 2] == ' '
}

/// The starting indices of the separators of `c` at or after `i`, found left to right
/// without overlap (as `str::split` finds them).
pub open spec fn seps_from(c: Seq<char>, i: int) -> Seq<int>
    decreases c.len() - i,
{
    if i < 0 || i + 3 > c.len() {
        seq![]
    } else if sep_at(c, i) {
        seq![i] + seps_from(c, i + 3)
    } else {
        seps_from(c, i + 1)
    }
}

/// The starting indices of the separators of `c`.
pub open spec fn separators(c: Seq<char>) -> Seq<int> {
    seps_from(c, 0)
}

/// The top-level category of `c`: everything before its first separator, or `c` itself.
pub open spec fn top_level(c: Seq<char>) -> Seq<char> {
    if separators(c).len() == 0 {
        c
    } else {
        c.subrange(0, separators(c)[0])
    }
}

/// The last component of `c`: everything after its last separator, or `c` itself.
pub open spec fn last_component(c: Seq<char>) -> Seq<char> {
    if separators(c).len() == 0 {
        c
    } else {
        c.subrange(separators(c).last() + 3, c.len() as int)
    }
}

/// The ancestors of `c`, outermost first: for each separator, the part of `c` before it.
pub open spec fn ancestor_paths(c: Seq<char>) -> Seq<Seq<char>> {
    separators(c).map_values(|p: int| c.subrange(0, p))
}

/// `t` added to each of the names in `ps`, in order.
pub open spec fn add_paths(m: Map<Seq<char>, nat>, ps: Seq<Seq<char>>, t: nat) -> Map<Seq<char>, nat>
    decreases ps.len(),
{
    if ps.len() == 0 {
        m
    } else {
        add_time(add_paths(m, ps.drop_last(), t), ps.last(), t)
    }
}

/// The top-level aggregation of a sequence of entries, taken in order: the "All" entry is
/// kept as it is, every other duration is added to its top-level category.
pub open spec fn top_level_fold(s: Seq<(Seq<char>, nat)>) -> Map<Seq<char>, nat>
    decreases s.len(),
{
    if s.len() == 0 {
        Map::empty()
    } else {
        let m = top_level_fold(s.drop_last());
        let e = s.last();
        if e.0 == all_name() {
            m.insert(e.0, e.1)
        } else {
            add_time(m, top_level(e.0), e.1)
        }
    }
}

/// The all-levels aggregation of a sequence of entries, taken in order: the "All" entry is
/// kept as it is, every other duration is added to its category and to each of its ancestors.
pub open spec fn all_levels_fold(s: Seq<(Seq<char>, nat)>) -> Map<Seq<char>, nat>
    decreases s.len(),
{
    if s.len() == 0 {
        Map::empty()
    } else {
        let m = all_levels_fold(s.drop_last());
        let e = s.last();
        if e.0 == all_name() {
            m.insert(e.0, e.1)
        } else {
            add_paths(add_time(m, e.0, e.1), ancestor_paths(e.0), e.1)
        }
    }
}

/// The string "All".
pub fn all_string() -> (s: String)
    ensures
        s@ == all_name(),
{
    String::from_str("All")
}

/// Whether the separator " > " starts at index `i` of `c`, whose length is `n`.
fn sep_matches(c: &str, n: usize, i: usize) -> (b: bool)
    requires
        n == c@.len(),
    ensures
        b == sep_at(c@, i as int),
{
    if i > n || n - i < 3 {
        return false;
    }
    c.get_char(i) == ' ' && c.get_char(i + 1) == '>' && c.get_char(i + 2) == ' '
}

/// The top-level category of `category`: everything before the first " > ".
pub fn top_level_name(category: &str) -> (r: String)
    ensures
        r@ == top_level(category@),
{
    let n = category.unicode_len();
    let mut i: usize = 0;
    while i < n
        invariant
            n == category@.len(),
            i <= n,
            separators(category@) == seps_from(category@, i as int),
        decreases n - i,
    {
        if sep_matches(category, n, i) {
            assert(seps_from(category@, i as int)[0] == i);
            return String::from_str(category.substring_char(0, i));
        }
        i = i + 1;
    }
    assert(separators(category@).len() == 0);
    assert(category@.subrange(0, n as int) =~= category@);
    String::from_str(category.substring_char(0, n))
}

/// The last component of `category`: everything after the last " > ".
pub fn last_component_name(category: &str) -> (r: String)
    ensures
        r@ == last_component(category@),
{
    let ghost c = category@;
    let n = category.unicode_len();
    let mut i: usize = 0;
    let mut start: usize = 0;
    let ghost mut found: Seq<int> = seq![];
    while i < n
        invariant
            n == c.len(),
            c == category@,
            i <= n,
            start <= n,
            found + seps_from(c, i as int) == separators(c),
            found.len() == 0 ==> start == 0,
            found.len() > 0 ==> start == found.last() + 3,
        decreases n - i,
    {
        if sep_matches(category, n, i) {
            proof {
                assert(seps_from(c, i as int) == seq![i as int] + seps_from(c, i + 3));
                assert(found.push(i as int) + seps_from(c, i + 3) =~= found + seps_from(c, i as int));
                found = found.push(i as int);
            }
            start = i + 3;
            i = i + 3;
        } else {
            i = i + 1;
        }
    }
    proof {
        assert(seps_from(c, i as int) =~= seq![]);
        assert(found =~= separators(c));
        if found.len() == 0 {
            assert(c.subrange(0, n as int) =~= c);
        }
    }
    String::from_str(category.substring_char(start, n))
}

/// Aggregates hierarchical categories by their top-level category
/// ("Work > Programming > Rust" counts for "Work"); the "All" entry is kept as it is.
pub fn aggregate_categories_by_top_level(cat_time: &CategoryTimes) -> (r: CategoryTimes)
    requires
        cat_time.wf(),
        cat_time.total() <= u64::MAX,
    ensures
        r.wf(),
        r@ == top_level_fold(cat_time.entries()),
        forall|k: Seq<char>| k != all_name() ==> (#[trigger] r@.contains_key(k) <==> exists|i: int|
            0 <= i < cat_time.entries().len() && #[trigger] counts_for_top(cat_time.entries()[i].0, k)),
        forall|k: Seq<char>| k != all_name() ==> #[trigger] value_at(r@, k) == top_level_sum(cat_time.entries(), k),
        (forall|i: int| 0 <= i < cat_time.entries().len() ==> !#[trigger] counts_for_level(cat_time.entries()[i].0, all_name()))
            ==> value_at(r@, all_name()) == value_at(cat_time@, all_name())
            && (r@.contains_key(all_name()) <==> cat_time@.contains_key(all_name())),
{
    let ghost s = cat_time.entries();
    let mut out = CategoryTimes::new();
    let all = all_string();
    let n = cat_time.len();
    for j in 0..n
        invariant
            n == s.len(),
            s == cat_time.entries(),
            all@ == all_name(),
            seq_total(s) <= u64::MAX,
            out.wf(),
            out@ == top_level_fold(s.take(j as int)),
            forall|k: Seq<char>| #[trigger] out@.contains_key(k) ==> out@[k] <= seq_total(s.take(j as int)),
    {
        proof {
            lemma_seq_total_prefix(s, j + 1);
            assert(s.take(j + 1).drop_last() =~= s.take(j as int));
        }
        let name = cat_time.name_at(j);
        let t = cat_time.time_at(j);
        assert(s.take(j + 1).drop_last() =~= s.take(j as int));
        assert(s.take(j + 1).last() == s[j as int]);
        if *name == all {
            out.insert(name.clone(), t);
        } else {
            let top = top_level_name(name.as_str());
            out.add(top, t);
        }
    }
    assert(s.take(n as int) =~= s);
    proof {
        assert forall|k: Seq<char>| k != all_name() implies (#[trigger] out@.contains_key(k) <==> exists|i: int|
            0 <= i < s.len() && #[trigger] counts_for_top(s[i].0, k)) && value_at(out@, k) == top_level_sum(s, k) by {
            lemma_top_level_sums(s, k);
        }
        if forall|i: int| 0 <= i < s.len() ==> !#[trigger] counts_for_level(s[i].0, all_name()) {
            lemma_all_entry_kept(s);
        }
    }
    out
}

/// Adds `t` to `category` and to each of its ancestors ("Work > Programming > Rust" counts
/// for itself, "Work > Programming" and "Work").
fn add_to_all_levels(out: &mut CategoryTimes, category: &String, t: u64, Ghost(bound): Ghost<nat>)
    requires
        old(out).wf(),
        bound + t <= u64::MAX,
        forall|k: Seq<char>| #[trigger] old(out)@.contains_key(k) ==> old(out)@[k] <= bound,
    ensures
        final(out).wf(),
        final(out)@ == add_paths(add_time(old(out)@, category@, t as nat), ancestor_paths(category@), t as nat),
        forall|k: Seq<char>| #[trigger] final(out)@.contains_key(k) ==> final(out)@[k] <= bound + t,
{
    let ghost c = category@;
    let ghost m0 = out@;
    out.add(category.clone(), t);
    let ghost m1 = out@;
    let n = category.unicode_len();
    let mut i: usize = 0;
    let ghost mut found: Seq<int> = seq![];
    while i < n
        invariant
            n == c.len(),
            c == category@,
            i <= n,
            bound + t <= u64::MAX,
            m1 == add_time(m0, c, t as nat),
            forall|k: Seq<char>| #[trigger] m0.contains_key(k) ==> m0[k] <= bound,
            found + seps_from(c, i as int) == separators(c),
            forall|a: int| 0 <= a < found.len() ==> found[a] + 3 <= i,
            out.wf(),
            out@ == add_paths(m1, found.map_values(|p: int| c.subrange(0, p)), t as nat),
            forall|k: Seq<char>| #[trigger] out@.contains_key(k) ==> out@[k] <= bound + t,
            forall|k: Seq<char>|
                #[trigger] out@.contains_key(k) && i <= k.len() < c.len() ==> out@[k] <= bound,
        decreases n - i,
    {
        if sep_matches(category.as_str(), n, i) {
            let prefix = String::from_str(category.as_str().substring_char(0, i));
            let ghost ps = found.map_values(|p: int| c.subrange(0, p));
            assert(prefix@.len() == i);
            assert(out@.contains_key(prefix@) ==> out@[prefix@] <= bound);
            out.add(prefix, t);
            proof {
                assert(seps_from(c, i as int) == seq![i as int] + seps_from(c, i + 3));
                assert(found.push(i as int) + seps_from(c, i + 3) =~= found + seps_from(c, i as int));
                assert(found.push(i as int).map_values(|p: int| c.subrange(0, p)) =~= ps.push(c.subrange(0, i as int)));
                assert(ps.push(c.subrange(0, i as int)).drop_last() =~= ps);
                found = found.push(i as int);
            }
            i = i + 3;
        } else {
            i = i + 1;
        }
    }
    proof {
        assert(seps_from(c, i as int) =~= seq![]);
        assert(found =~= separators(c));
    }
}

/// Aggregates categories by all levels: every category's time counts for the category itself
/// and for each of its ancestors; the "All" entry is kept as it is.
pub fn aggregate_categories_by_all_levels(cat_time: &CategoryTimes) -> (r: CategoryTimes)
    requires
        cat_time.wf(),
        cat_time.total() <= u64::MAX,
    ensures
        r.wf(),
        r@ == all_levels_fold(cat_time.entries()),
        forall|k: Seq<char>| k != all_name() ==> (#[trigger] r@.contains_key(k) <==> exists|i: int|
            0 <= i < cat_time.entries().len() && #[trigger] counts_for_level(cat_time.entries()[i].0, k)),
        forall|k: Seq<char>| k != all_name() ==> #[trigger] value_at(r@, k) == all_levels_sum(cat_time.entries(), k),
        (forall|i: int| 0 <= i < cat_time.entries().len() ==> !#[trigger] counts_for_level(cat_time.entries()[i].0, all_name()))
            ==> value_at(r@, all_name()) == value_at(cat_time@, all_name())
            && (r@.contains_key(all_name()) <==> cat_time@.contains_key(all_name())),
{
    let ghost s = cat_time.entries();
    let mut out = CategoryTimes::new();
    let all = all_string();
    let n = cat_time.len();
    for j in 0..n
        invariant
            n == s.len(),
            s == cat_time.entries(),
            all@ == all_name(),
            seq_total(s) <= u64::MAX,
            out.wf(),
            out@ == all_levels_fold(s.take(j as int)),
            forall|k: Seq<char>| #[trigger] out@.contains_key(k) ==> out@[k] <= seq_total(s.take(j as int)),
    {
        proof {
            lemma_seq_total_prefix(s, j + 1);
            assert(s.take(j + 1).drop_last() =~= s.take(j as int));
        }
        let name = cat_time.name_at(j);
        let t = cat_time.time_at(j);
        assert(s.take(j + 1).drop_last() =~= s.take(j as int));
        assert(s.take(j + 1).last() == s[j as int]);
        if *name == all {
            out.insert(name.clone(), t);
        } else {
            add_to_all_levels(&mut out, name, t, Ghost(seq_total(s.take(j as int))));
        }
    }
    assert(s.take(n as int) =~= s);
    proof {
        assert forall|k: Seq<char>| k != all_name() implies (#[trigger] out@.contains_key(k) <==> exists|i: int|
            0 <= i < s.len() && #[trigger] counts_for_level(s[i].0, k)) && value_at(out@, k) == all_levels_sum(s, k) by {
            lemma_all_levels_sums(s, k);
        }
        if forall|i: int| 0 <= i < s.len() ==> !#[trigger] counts_for_level(s[i].0, all_name()) {
            lemma_all_entry_kept(s);
        }
    }
    out
}

} // verus!
