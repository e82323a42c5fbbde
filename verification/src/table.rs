//! A table from category names to durations in milliseconds.

use vstd::prelude::*;

verus! {

/// An entry of a table, taken as plain values.
pub open spec fn entry_view(e: (String, u64)) -> (Seq<char>, nat) {
    (e.0@, e.1 as nat)
}

/// No name occurs twice among the entries.
pub open spec fn keys_unique(s: Seq<(Seq<char>, nat)>) -> bool {
    forall|i: int, j: int|
        0 <= i < s.len() && 0 <= j < s.len() && i != j ==> #[trigger] s[i].0 != #[trigger] s[j].0
}

/// The map that a sequence of entries stands for (a later entry wins over an earlier one).
pub open spec fn table_map(s: Seq<(Seq<char>, nat)>) -> Map<Seq<char>, nat>
    decreases s.len(),
{
    if s.len() == 0 {
        Map::empty()
    } else {
        table_map(s.drop_last()).insert(s.last().0, s.last().1)
    }
}

/// The sum of the durations of a sequence of entries.
pub open spec fn seq_total(s: Seq<(Seq<char>, nat)>) -> nat
    decreases s.len(),
{
    if s.len() == 0 {
        0
    } else {
        seq_total(s.drop_last()) + s.last().1
    }
}

/// `m` with `t` added to the duration of `k` (a missing name counts as zero).
pub open spec fn add_time(m: Map<Seq<char>, nat>, k: Seq<char>, t: nat) -> Map<Seq<char>, nat> {
    m.insert(k, if m.contains_key(k) { m[k] + t } else { t })
}

/// The index of the entry named `k` in `s` (the last such entry), or -1 where there is none.
pub open spec fn key_index(s: Seq<(Seq<char>, nat)>, k: Seq<char>) -> int
    decreases s.len(),
{
    if s.len() == 0 {
        -1
    } else if s.last().0 == k {
        s.len() - 1
    } else {
        key_index(s.drop_last(), k)
    }
}

/// `s` with `k` set to `v`: the entry named `k` keeps its place and takes the new value, or
/// a new entry goes at the end.
pub open spec fn entries_insert(s: Seq<(Seq<char>, nat)>, k: Seq<char>, v: nat) -> Seq<(Seq<char>, nat)> {
    if key_index(s, k) >= 0 {
        s.update(key_index(s, k), (k, v))
    } else {
        s.push((k, v))
    }
}

/// `s` with `t` added to `k` (a missing name starting from zero), placed as `entries_insert`
/// places it.
pub open spec fn entries_add(s: Seq<(Seq<char>, nat)>, k: Seq<char>, t: nat) -> Seq<(Seq<char>, nat)> {
    entries_insert(s, k, (if table_map(s).contains_key(k) { table_map(s)[k] } else { 0 }) + t)
}

pub proof fn lemma_key_index(s: Seq<(Seq<char>, nat)>, k: Seq<char>)
    requires
        keys_unique(s),
    ensures
        -1 <= key_index(s, k) < s.len(),
        key_index(s, k) >= 0 ==> s[key_index(s, k)].0 == k,
        forall|i: int| 0 <= i < s.len() && #[trigger] s[i].0 == k ==> key_index(s, k) == i,
        key_index(s, k) < 0 ==> forall|i: int| 0 <= i < s.len() ==> #[trigger] s[i].0 != k,
    decreases s.len(),
{
    if s.len() > 0 {
        let d = s.drop_last();
        lemma_keys_unique_drop_last(s);
        lemma_key_index(d, k);
        assert forall|i: int| 0 <= i < d.len() implies #[trigger] d[i] == s[i] by {}
        if s.last().0 != k {
            assert forall|i: int| 0 <= i < s.len() && #[trigger] s[i].0 == k implies key_index(s, k) == i by {
                assert(i < s.len() - 1);
                assert(d[i].0 == k);
            }
        } else {
            assert forall|i: int| 0 <= i < s.len() && #[trigger] s[i].0 == k implies key_index(s, k) == i by {
                if i < s.len() - 1 {
                    assert(s[i].0 == s[s.len() - 1].0);
                }
            }
        }
    }
}

pub proof fn lemma_table_map_contains(s: Seq<(Seq<char>, nat)>, k: Seq<char>)
    ensures
        table_map(s).contains_key(k) <==> exists|i: int| 0 <= i < s.len() && #[trigger] s[i].0 == k,
    decreases s.len(),
{
    if s.len() > 0 {
        lemma_table_map_contains(s.drop_last(), k);
        if table_map(s.drop_last()).contains_key(k) {
            let i = choose|i: int| 0 <= i < s.drop_last().len() && #[trigger] s.drop_last()[i].0 == k;
            assert(s[i].0 == k);
        }
        if exists|i: int| 0 <= i < s.len() && #[trigger] s[i].0 == k {
            let i = choose|i: int| 0 <= i < s.len() && #[trigger] s[i].0 == k;
            if i < s.len() - 1 {
                assert(s.drop_last()[i].0 == k);
            }
        }
    }
}

pub proof fn lemma_table_map_index(s: Seq<(Seq<char>, nat)>, i: int)
    requires
        keys_unique(s),
        0 <= i < s.len(),
    ensures
        table_map(s).contains_key(s[i].0),
        table_map(s)[s[i].0] == s[i].1,
    decreases s.len(),
{
    if i < s.len() - 1 {
        let d = s.drop_last();
        assert(keys_unique(d)) by {
            assert forall|a: int, b: int| 0 <= a < d.len() && 0 <= b < d.len() && a != b implies
                #[trigger] d[a].0 != #[trigger] d[b].0 by {
                assert(d[a] == s[a] && d[b] == s[b]);
            }
        }
        lemma_table_map_index(d, i);
        assert(s[i].0 != s[s.len() - 1].0);
    }
}

pub proof fn lemma_keys_unique_drop_last(s: Seq<(Seq<char>, nat)>)
    requires
        keys_unique(s),
        s.len() > 0,
    ensures
        keys_unique(s.drop_last()),
{
    let d = s.drop_last();
    assert forall|a: int, b: int| 0 <= a < d.len() && 0 <= b < d.len() && a != b implies
        #[trigger] d[a].0 != #[trigger] d[b].0 by {
        assert(d[a] == s[a] && d[b] == s[b]);
    }
}

pub proof fn lemma_table_map_update(s: Seq<(Seq<char>, nat)>, i: int, v: nat)
    requires
        keys_unique(s),
        0 <= i < s.len(),
    ensures
        table_map(s.update(i, (s[i].0, v))) == table_map(s).insert(s[i].0, v),
    decreases s.len(),
{
    let n = s.len() - 1;
    let u = s.update(i, (s[i].0, v));
    if i == n {
        assert(u.drop_last() =~= s.drop_last());
        assert(table_map(u) =~= table_map(s).insert(s[i].0, v));
    } else {
        lemma_keys_unique_drop_last(s);
        lemma_table_map_update(s.drop_last(), i, v);
        assert(u.drop_last() =~= s.drop_last().update(i, (s[i].0, v)));
        assert(s[i].0 != s[n].0);
        assert(table_map(u) =~= table_map(s).insert(s[i].0, v));
    }
}

pub proof fn lemma_seq_total_update(s: Seq<(Seq<char>, nat)>, i: int, v: nat)
    requires
        0 <= i < s.len(),
    ensures
        seq_total(s.update(i, (s[i].0, v))) + s[i].1 == seq_total(s) + v,
    decreases s.len(),
{
    let n = s.len() - 1;
    let u = s.update(i, (s[i].0, v));
    if i == n {
        assert(u.drop_last() =~= s.drop_last());
    } else {
        lemma_seq_total_update(s.drop_last(), i, v);
        assert(u.drop_last() =~= s.drop_last().update(i, (s[i].0, v)));
    }
}

/// Every entry's duration is at most the total.
pub proof fn lemma_seq_total_bounds(s: Seq<(Seq<char>, nat)>, i: int)
    requires
        0 <= i < s.len(),
    ensures
        s[i].1 <= seq_total(s),
    decreases s.len(),
{
    if i < s.len() - 1 {
        lemma_seq_total_bounds(s.drop_last(), i);
    }
}

/// The total of a prefix is at most the total of the whole.
pub proof fn lemma_seq_total_prefix(s: Seq<(Seq<char>, nat)>, j: int)
    requires
        0 <= j <= s.len(),
    ensures
        seq_total(s.take(j)) <= seq_total(s),
    decreases s.len(),
{
    if j < s.len() {
        lemma_seq_total_prefix(s.drop_last(), j);
        assert(s.drop_last().take(j) =~= s.take(j));
    } else {
        assert(s.take(j) =~= s);
    }
}

/// Durations per category name, in milliseconds; each name occurs at most once.
#[derive(Debug, Clone)]
pub struct CategoryTimes {
    entries: Vec<(String, u64)>,
}

impl View for CategoryTimes {
    type V = Map<Seq<char>, nat>;

    open spec fn view(&self) -> Map<Seq<char>, nat> {
        table_map(self.entries())
    }
}

impl CategoryTimes {
    /// The entries in the order in which their names were first added.
    pub closed spec fn entries(&self) -> Seq<(Seq<char>, nat)> {
        self.entries@.map_values(|e: (String, u64)| entry_view(e))
    }

    /// Well-formedness: no name occurs twice.
    pub open spec fn wf(&self) -> bool {
        keys_unique(self.entries())
    }

    /// The sum of all durations in the table.
    pub open spec fn total(&self) -> nat {
        seq_total(self.entries())
    }

    pub proof fn lemma_view_contains(&self, k: Seq<char>)
        ensures
            self@.contains_key(k) <==> exists|i: int|
                0 <= i < self.entries().len() && #[trigger] self.entries()[i].0 == k,
    {
        lemma_table_map_contains(self.entries(), k);
    }

    pub proof fn lemma_view_index(&self, i: int)
        requires
            self.wf(),
            0 <= i < self.entries().len(),
        ensures
            self@.contains_key(self.entries()[i].0),
            self@[self.entries()[i].0] == self.entries()[i].1,
    {
        lemma_table_map_index(self.entries(), i);
    }

    /// Each duration in the table is at most the total.
    pub proof fn lemma_value_le_total(&self, k: Seq<char>)
        requires
            self.wf(),
            self@.contains_key(k),
        ensures
            self@[k] <= self.total(),
    {
        self.lemma_view_contains(k);
        let i = choose|i: int| 0 <= i < self.entries().len() && #[trigger] self.entries()[i].0 == k;
        self.lemma_view_index(i);
        lemma_seq_total_bounds(self.entries(), i);
    }

    /// An empty table.
    pub fn new() -> (t: CategoryTimes)
        ensures
            t.wf(),
            t@ == Map::<Seq<char>, nat>::empty(),
            t.entries().len() == 0,
            t.total() == 0,
    {
        let t = CategoryTimes { entries: Vec::new() };
        assert(t.entries() =~= Seq::empty());
        t
    }

    /// The sum of all durations, where it fits in a `u64`.
    pub fn total_ms(&self) -> (r: Option<u64>)
        ensures
            match r {
                Some(t) => t == self.total(),
                None => self.total() > u64::MAX,
            },
    {
        let n = self.entries.len();
        let mut sum: u64 = 0;
        for i in 0..n
            invariant
                n == self.entries@.len(),
                sum == seq_total(self.entries().take(i as int)),
        {
            let t = self.entries[i].1;
            assert(self.entries().take(i + 1).drop_last() =~= self.entries().take(i as int));
            if sum > u64::MAX - t {
                proof { lemma_seq_total_prefix(self.entries(), i + 1); }
                return None;
            }
            sum = sum + t;
        }
        assert(self.entries().take(n as int) =~= self.entries());
        Some(sum)
    }

    /// The number of names in the table.
    pub fn len(&self) -> (n: usize)
        ensures
            n == self.entries().len(),
    {
        self.entries.len()
    }

    /// Whether the table holds no name.
    pub fn is_empty(&self) -> (b: bool)
        ensures
            b == (self.entries().len() == 0),
    {
        self.entries.len() == 0
    }

    /// The name of the entry at `i`.
    pub fn name_at(&self, i: usize) -> (s: &String)
        requires
            i < self.entries().len(),
        ensures
            s@ == self.entries()[i as int].0,
    {
        &self.entries[i].0
    }

    /// The duration of the entry at `i`.
    pub fn time_at(&self, i: usize) -> (t: u64)
        requires
            i < self.entries().len(),
        ensures
            t == self.entries()[i as int].1,
    {
        self.entries[i].1
    }

    /// The index of the entry named `key`, if any.
    pub fn position(&self, key: &String) -> (r: Option<usize>)
        ensures
            match r {
                Some(i) => i < self.entries().len() && self.entries()[i as int].0 == key@,
                None => forall|i: int| 0 <= i < self.entries().len() ==> #[trigger] self.entries()[i].0 != key@,
            },
    {
        let n = self.entries.len();
        for i in 0..n
            invariant
                n == self.entries@.len(),
                forall|j: int| 0 <= j < i ==> #[trigger] self.entries()[j].0 != key@,
        {
            if self.entries[i].0 == *key {
                return Some(i);
            }
        }
        None
    }

    /// The duration recorded for `key`, if any.
    pub fn get(&self, key: &String) -> (r: Option<u64>)
        requires
            self.wf(),
        ensures
            match r {
                Some(t) => self@.contains_key(key@) && self@[key@] == t,
                None => !self@.contains_key(key@),
            },
    {
        proof { self.lemma_view_contains(key@); }
        match self.position(key) {
            Some(i) => {
                proof { self.lemma_view_index(i as int); }
                Some(self.entries[i].1)
            },
            None => None,
        }
    }

    /// Sets the duration of `key` to `t`, replacing any earlier value.
    pub fn insert(&mut self, key: String, t: u64)
        requires
            old(self).wf(),
        ensures
            final(self).wf(),
            final(self)@ == old(self)@.insert(key@, t as nat),
            final(self).entries() == entries_insert(old(self).entries(), key@, t as nat),
            old(self)@.contains_key(key@) ==> final(self).total() + old(self)@[key@] == old(self).total() + t,
            !old(self)@.contains_key(key@) ==> final(self).total() == old(self).total() + t,
    {
        proof {
            old(self).lemma_view_contains(key@);
            lemma_key_index(old(self).entries(), key@);
        }
        let ghost k = key@;
        match self.position(&key) {
            Some(i) => {
                proof { old(self).lemma_view_index(i as int); }
                let ghost s = self.entries();
                self.entries.set(i, (key, t));
                proof {
                    assert(self.entries() =~= s.update(i as int, (s[i as int].0, t as nat)));
                    lemma_table_map_update(s, i as int, t as nat);
                    lemma_seq_total_update(s, i as int, t as nat);
                }
            },
            None => {
                let ghost s = self.entries();
                self.entries.push((key, t));
                proof {
                    assert(self.entries() =~= s.push((k, t as nat)));
                    assert(self.entries().drop_last() =~= s);
                    assert(keys_unique(self.entries())) by {
                        let e = self.entries();
                        assert forall|a: int, b: int| 0 <= a < e.len() && 0 <= b < e.len() && a != b implies
                            #[trigger] e[a].0 != #[trigger] e[b].0 by {
                            if a < s.len() && b < s.len() {
                                assert(e[a] == s[a] && e[b] == s[b]);
                            } else if a < s.len() {
                                assert(e[a] == s[a]);
                            } else {
                                assert(e[b] == s[b]);
                            }
                        }
                    }
                }
            },
        }
    }

    /// Adds `t` to the duration of `key` (a missing name starts from zero).
    pub fn add(&mut self, key: String, t: u64)
        requires
            old(self).wf(),
            old(self)@.contains_key(key@) ==> old(self)@[key@] + t <= u64::MAX,
        ensures
            final(self).wf(),
            final(self)@ == add_time(old(self)@, key@, t as nat),
            final(self).entries() == entries_add(old(self).entries(), key@, t as nat),
            final(self).total() == old(self).total() + t,
    {
        match self.get(&key) {
            Some(v) => {
                self.insert(key, v + t);
            },
            None => {
                self.insert(key, t);
            },
        }
    }
}

} // verus!
