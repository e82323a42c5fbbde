//! What the aggregations of category times add up to.

use vstd::prelude::*;
use crate::table::{add_time, keys_unique, lemma_keys_unique_drop_last, table_map, CategoryTimes};
use crate::category::{
    add_paths, all_levels_fold, all_name, ancestor_paths, sep_at, seps_from, separators, top_level,
    top_level_fold,
};

verus! {

/// The duration recorded for `k` in `m`, zero where `k` is missing.
pub open spec fn value_at(m: Map<Seq<char>, nat>, k: Seq<char>) -> nat {
    if m.contains_key(k) { m[k] } else { 0 }
}

/// Entry name `c` counts for `k` under top-level aggregation.
pub open spec fn counts_for_top(c: Seq<char>, k: Seq<char>) -> bool {
    c != all_name() && top_level(c) == k
}

/// Entry name `c` counts for `k` under all-levels aggregation: `k` is `c` or one of its ancestors.
pub open spec fn counts_for_level(c: Seq<char>, k: Seq<char>) -> bool {
    c != all_name() && (k == c || ancestor_paths(c).contains(k))
}

/// The sum of the durations of the entries that count for `k` at the top level.
pub open spec fn top_level_sum(s: Seq<(Seq<char>, nat)>, k: Seq<char>) -> nat
    decreases s.len(),
{
    if s.len() == 0 {
        0
    } else {
        top_level_sum(s.drop_last(), k) + if counts_for_top(s.last().0, k) { s.last().1 } else { 0 }
    }
}

/// The sum of the durations of the entries that count for `k` at some level.
pub open spec fn all_levels_sum(s: Seq<(Seq<char>, nat)>, k: Seq<char>) -> nat
    decreases s.len(),
{
    if s.len() == 0 {
        0
    } else {
        all_levels_sum(s.drop_last(), k) + if counts_for_level(s.last().0, k) { s.last().1 } else { 0 }
    }
}

/// Separators found from `i` lie in `c`, at or after `i`, in increasing order and apart.
pub proof fn lemma_seps_from_shape(c: Seq<char>, i: int)
    ensures
        forall|a: int| 0 <= a < seps_from(c, i).len() ==>
            i <= #[trigger] seps_from(c, i)[a] && seps_from(c, i)[a] + 3 <= c.len()
            && sep_at(c, seps_from(c, i)[a]),
        forall|a: int, b: int| 0 <= a < b < seps_from(c, i).len() ==>
            #[trigger] seps_from(c, i)[a] + 3 <= #[trigger] seps_from(c, i)[b],
    decreases c.len() - i,
{
    if i < 0 || i + 3 > c.len() {
    } else if sep_at(c, i) {
        lemma_seps_from_shape(c, i + 3);
        let s = seps_from(c, i);
        let r = seps_from(c, i + 3);
        assert(s == seq![i] + r);
        assert forall|a: int| 0 <= a < s.len() implies
            i <= #[trigger] s[a] && s[a] + 3 <= c.len() && sep_at(c, s[a]) by {
            if a > 0 { assert(s[a] == r[a - 1]); }
        }
        assert forall|a: int, b: int| 0 <= a < b < s.len() implies #[trigger] s[a] + 3 <= #[trigger] s[b] by {
            assert(s[b] == r[b - 1]);
            if a > 0 { assert(s[a] == r[a - 1]); }
        }
    } else {
        lemma_seps_from_shape(c, i + 1);
        assert(seps_from(c, i) == seps_from(c, i + 1));
    }
}

/// No separator starts before the first one found from `i`.
pub proof fn lemma_seps_from_first(c: Seq<char>, i: int)
    requires
        0 <= i,
    ensures
        seps_from(c, i).len() == 0 ==> forall|j: int| i <= j ==> !#[trigger] sep_at(c, j),
        seps_from(c, i).len() > 0 ==> forall|j: int| i <= j < seps_from(c, i)[0] ==> !#[trigger] sep_at(c, j),
    decreases c.len() - i,
{
    if i + 3 > c.len() {
    } else if sep_at(c, i) {
    } else {
        lemma_seps_from_first(c, i + 1);
    }
}

/// Where no separator starts at or after `i`, none is found.
pub proof fn lemma_seps_from_none(c: Seq<char>, i: int)
    requires
        forall|j: int| i <= j ==> !#[trigger] sep_at(c, j),
    ensures
        seps_from(c, i).len() == 0,
    decreases c.len() - i,
{
    if i < 0 || i + 3 > c.len() {
    } else {
        lemma_seps_from_none(c, i + 1);
    }
}

/// A top-level category has no separator, so it is its own top level.
pub proof fn lemma_top_level_idempotent(c: Seq<char>)
    ensures
        separators(top_level(c)).len() == 0,
        top_level(top_level(c)) == top_level(c),
{
    lemma_seps_from_first(c, 0);
    if separators(c).len() == 0 {
    } else {
        let p = separators(c)[0];
        lemma_seps_from_shape(c, 0);
        let d = c.subrange(0, p);
        assert forall|j: int| 0 <= j implies !#[trigger] sep_at(d, j) by {
            if sep_at(d, j) {
                assert(d[j] == c[j] && d[j + 1] == c[j + 1] && d[j + 2] == c[j + 2]);
                assert(sep_at(c, j));
            }
        }
        lemma_seps_from_none(d, 0);
    }
}

/// The ancestors of a category are distinct, and none is the category itself.
pub proof fn lemma_ancestors_distinct(c: Seq<char>)
    ensures
        ancestor_paths(c).no_duplicates(),
        !ancestor_paths(c).contains(c),
        forall|a: int| 0 <= a < ancestor_paths(c).len() ==> (#[trigger] ancestor_paths(c)[a]).len() < c.len(),
{
    lemma_seps_from_shape(c, 0);
    let s = separators(c);
    let ps = ancestor_paths(c);
    assert forall|a: int| 0 <= a < ps.len() implies (#[trigger] ps[a]).len() == s[a] && s[a] < c.len() by {}
    assert forall|a: int, b: int| 0 <= a < ps.len() && 0 <= b < ps.len() && a != b implies ps[a] != ps[b] by {
        assert(ps[a].len() == s[a] && ps[b].len() == s[b]);
        if a < b { assert(s[a] + 3 <= s[b]); } else { assert(s[b] + 3 <= s[a]); }
    }
    if ps.contains(c) {
        let a = choose|a: int| 0 <= a < ps.len() && ps[a] == c;
        assert(ps[a].len() == s[a]);
    }
}

/// Adding `t` along distinct paths adds it once to each of them.
pub proof fn lemma_add_paths(m: Map<Seq<char>, nat>, ps: Seq<Seq<char>>, t: nat, k: Seq<char>)
    requires
        ps.no_duplicates(),
    ensures
        add_paths(m, ps, t).contains_key(k) <==> (m.contains_key(k) || ps.contains(k)),
        value_at(add_paths(m, ps, t), k) == value_at(m, k) + if ps.contains(k) { t } else { 0 },
    decreases ps.len(),
{
    if ps.len() > 0 {
        let d = ps.drop_last();
        assert(d.no_duplicates()) by {
            assert forall|a: int, b: int| 0 <= a < d.len() && 0 <= b < d.len() && a != b implies d[a] != d[b] by {
                assert(d[a] == ps[a] && d[b] == ps[b]);
            }
        }
        lemma_add_paths(m, d, t, k);
        assert(ps.contains(k) <==> (d.contains(k) || ps.last() == k)) by {
            if ps.contains(k) {
                let a = choose|a: int| 0 <= a < ps.len() && ps[a] == k;
                if a < ps.len() - 1 { assert(d[a] == k); }
            }
            if d.contains(k) {
                let a = choose|a: int| 0 <= a < d.len() && d[a] == k;
                assert(ps[a] == k);
            }
        }
        if ps.last() == k && d.contains(k) {
            let a = choose|a: int| 0 <= a < d.len() && d[a] == k;
            assert(ps[a] == ps[ps.len() - 1]);
        }
    }
}

/// Top-level aggregation: each top-level category gets the sum of the times of the
/// categories under it, and holds an entry exactly when some category is under it.
pub proof fn lemma_top_level_sums(s: Seq<(Seq<char>, nat)>, k: Seq<char>)
    requires
        k != all_name(),
    ensures
        top_level_fold(s).contains_key(k) <==> exists|i: int| 0 <= i < s.len() && #[trigger] counts_for_top(s[i].0, k),
        value_at(top_level_fold(s), k) == top_level_sum(s, k),
    decreases s.len(),
{
    if s.len() > 0 {
        let d = s.drop_last();
        lemma_top_level_sums(d, k);
        if counts_for_top(s.last().0, k) {
            assert(counts_for_top(s[s.len() - 1].0, k));
        }
        if exists|i: int| 0 <= i < d.len() && #[trigger] counts_for_top(d[i].0, k) {
            let i = choose|i: int| 0 <= i < d.len() && #[trigger] counts_for_top(d[i].0, k);
            assert(s[i] == d[i]);
        }
        if exists|i: int| 0 <= i < s.len() && #[trigger] counts_for_top(s[i].0, k) {
            let i = choose|i: int| 0 <= i < s.len() && #[trigger] counts_for_top(s[i].0, k);
            if i < s.len() - 1 { assert(d[i] == s[i]); }
        }
    }
}

/// All-levels aggregation: each category and each of its ancestors gets the sum of the times
/// of the categories at or under it, and holds an entry exactly when some category is.
pub proof fn lemma_all_levels_sums(s: Seq<(Seq<char>, nat)>, k: Seq<char>)
    requires
        k != all_name(),
    ensures
        all_levels_fold(s).contains_key(k) <==> exists|i: int| 0 <= i < s.len() && #[trigger] counts_for_level(s[i].0, k),
        value_at(all_levels_fold(s), k) == all_levels_sum(s, k),
    decreases s.len(),
{
    if s.len() > 0 {
        let d = s.drop_last();
        let e = s.last();
        lemma_all_levels_sums(d, k);
        if counts_for_level(e.0, k) {
            assert(counts_for_level(s[s.len() - 1].0, k));
        }
        if e.0 != all_name() {
            lemma_ancestors_distinct(e.0);
            lemma_add_paths(add_time(all_levels_fold(d), e.0, e.1), ancestor_paths(e.0), e.1, k);
        }
        if exists|i: int| 0 <= i < d.len() && #[trigger] counts_for_level(d[i].0, k) {
            let i = choose|i: int| 0 <= i < d.len() && #[trigger] counts_for_level(d[i].0, k);
            assert(s[i] == d[i]);
        }
        if exists|i: int| 0 <= i < s.len() && #[trigger] counts_for_level(s[i].0, k) {
            let i = choose|i: int| 0 <= i < s.len() && #[trigger] counts_for_level(s[i].0, k);
            if i < s.len() - 1 { assert(d[i] == s[i]); }
        }
    }
}

/// Both aggregations keep the "All" entry as it is, where no other category counts for "All".
pub proof fn lemma_all_entry_kept(s: Seq<(Seq<char>, nat)>)
    requires
        keys_unique(s),
        forall|i: int| 0 <= i < s.len() ==> !#[trigger] counts_for_level(s[i].0, all_name()),
    ensures
        top_level_fold(s).contains_key(all_name()) <==> table_map(s).contains_key(all_name()),
        top_level_fold(s).contains_key(all_name()) ==> top_level_fold(s)[all_name()] == table_map(s)[all_name()],
        all_levels_fold(s).contains_key(all_name()) <==> table_map(s).contains_key(all_name()),
        all_levels_fold(s).contains_key(all_name()) ==> all_levels_fold(s)[all_name()] == table_map(s)[all_name()],
    decreases s.len(),
{
    if s.len() > 0 {
        let d = s.drop_last();
        let e = s.last();
        lemma_keys_unique_drop_last(s);
        assert forall|i: int| 0 <= i < d.len() implies !#[trigger] counts_for_level(d[i].0, all_name()) by {
            assert(d[i] == s[i]);
        }
        lemma_all_entry_kept(d);
        assert(!counts_for_level(s[s.len() - 1].0, all_name()));
        if e.0 != all_name() {
            lemma_ancestors_distinct(e.0);
            lemma_add_paths(add_time(all_levels_fold(d), e.0, e.1), ancestor_paths(e.0), e.1, all_name());
            if top_level(e.0) == all_name() {
                if separators(e.0).len() > 0 {
                    assert(ancestor_paths(e.0)[0] == top_level(e.0));
                }
            }
        }
    }
}


/// Top-level aggregation leaves a table alone whose names are all top-level names or "All".
pub proof fn lemma_top_level_fold_of_top_names(s: Seq<(Seq<char>, nat)>)
    requires
        keys_unique(s),
        forall|i: int| 0 <= i < s.len() ==> #[trigger] s[i].0 == all_name() || separators(s[i].0).len() == 0,
    ensures
        top_level_fold(s) == table_map(s),
    decreases s.len(),
{
    if s.len() > 0 {
        let d = s.drop_last();
        let e = s.last();
        lemma_keys_unique_drop_last(s);
        assert forall|i: int| 0 <= i < d.len() implies #[trigger] d[i].0 == all_name() || separators(d[i].0).len() == 0 by {
            assert(d[i] == s[i]);
        }
        lemma_top_level_fold_of_top_names(d);
        assert(s[s.len() - 1] == e);
        if e.0 != all_name() {
            crate::table::lemma_table_map_contains(d, e.0);
            if table_map(d).contains_key(e.0) {
                let i = choose|i: int| 0 <= i < d.len() && #[trigger] d[i].0 == e.0;
                assert(s[i].0 == s[s.len() - 1].0);
            }
        }
    }
}

/// Aggregating by top level a table that is already aggregated by top level changes
/// nothing.
pub proof fn law_top_level_idempotent(x: CategoryTimes, y: CategoryTimes)
    requires
        y.wf(),
        y@ == top_level_fold(x.entries()),
    ensures
        top_level_fold(y.entries()) == y@,
{
    let s = y.entries();
    assert forall|i: int| 0 <= i < s.len() implies #[trigger] s[i].0 == all_name() || separators(s[i].0).len() == 0 by {
        let k = s[i].0;
        if k != all_name() {
            y.lemma_view_contains(k);
            lemma_top_level_sums(x.entries(), k);
            let j = choose|j: int| 0 <= j < x.entries().len() && #[trigger] counts_for_top(x.entries()[j].0, k);
            lemma_top_level_idempotent(x.entries()[j].0);
        }
    }
    lemma_top_level_fold_of_top_names(s);
}

} // verus!
