//! Rotation of the log file: when to rotate, what to name the rotated file, and which
//! rotated files to remove.

use vstd::prelude::*;
use vstd::string::*;
use crate::text::views;

verus! {

/// The size above which the log file is rotated: 32 MiB.
pub const MAX_LOG_SIZE: u64 = 33554432u64;

/// How many rotated log files are kept.
pub const MAX_ROTATED_LOGS: usize = 5usize;

/// The operating systems whose log directories are laid out differently.
#[derive(Debug, Clone, Copy, PartialEq, Eq, Structural)]
pub enum Platform {
    Linux,
    Windows,
    /// macOS and the other Unix-like systems.
    Other,
}

/// The user directory the log directory lies under.
#[derive(Debug, Clone, Copy, PartialEq, Eq, Structural)]
pub enum LogBase {
    /// The cache directory.
    Cache,
    /// The local data directory.
    DataLocal,
    /// The home directory.
    Home,
}

/// Where logs go on `platform`: under which user directory, and the path components below it.
pub open spec fn log_layout(platform: Platform) -> (LogBase, Seq<Seq<char>>) {
    match platform {
        Platform::Linux => (LogBase::Cache, seq!["activitywatch"@, "aw-notify"@, "log"@]),
        Platform::Windows => (LogBase::DataLocal, seq!["activitywatch"@, "Logs"@, "aw-notify"@]),
        Platform::Other => (LogBase::Home, seq!["Library"@, "Logs"@, "activitywatch"@, "aw-notify"@]),
    }
}

/// The layout of the log directory on `platform`: the user directory it lies under and the
/// components to push onto that directory, in order.
pub fn log_dir_layout(platform: Platform) -> (r: (LogBase, Vec<String>))
    ensures
        r.0 == log_layout(platform).0,
        views(r.1@) == log_layout(platform).1,
{
    let mut parts: Vec<String> = Vec::new();
    let base = match platform {
        Platform::Linux => {
            parts.push(String::from_str("activitywatch"));
            parts.push(String::from_str("aw-notify"));
            parts.push(String::from_str("log"));
            LogBase::Cache
        },
        Platform::Windows => {
            parts.push(String::from_str("activitywatch"));
            parts.push(String::from_str("Logs"));
            parts.push(String::from_str("aw-notify"));
            LogBase::DataLocal
        },
        Platform::Other => {
            parts.push(String::from_str("Library"));
            parts.push(String::from_str("Logs"));
            parts.push(String::from_str("activitywatch"));
            parts.push(String::from_str("aw-notify"));
            LogBase::Home
        },
    };
    assert(views(parts@) =~= log_layout(platform).1);
    (base, parts)
}

/// Whether a log file of this size (`None` where there is no file) needs rotating.
pub fn needs_rotation(size: Option<u64>) -> (b: bool)
    ensures
        b == match size {
            Some(n) => n > MAX_LOG_SIZE,
            None => false,
        },
{
    match size {
        Some(n) => n > MAX_LOG_SIZE,
        None => false,
    }
}

/// The name of a rotated log file: "{stem}.{timestamp}.log".
pub fn rotated_log_name(stem: &str, timestamp: &str) -> (s: String)
    ensures
        s@ == stem@ + "."@ + timestamp@ + ".log"@,
{
    let mut s = String::from_str(stem);
    s.append(".");
    s.append(timestamp);
    s.append(".log");
    s
}

/// `name` is a rotated log of `stem`: it starts with "{stem}.", ends with ".log", and is
/// not "{stem}.log" itself.
pub open spec fn is_rotated_log_of(name: Seq<char>, stem: Seq<char>) -> bool {
    &&& (stem + "."@).is_prefix_of(name)
    &&& ".log"@.is_suffix_of(name)
    &&& name != stem + ".log"@
}

/// Whether `name` is a rotated log file of `stem`.
pub fn is_rotated_log(name: &str, stem: &str) -> (b: bool)
    ensures
        b == is_rotated_log_of(name@, stem@),
{
    let mut prefix = String::from_str(stem);
    prefix.append(".");
    let mut own = String::from_str(stem);
    own.append(".log");
    let suffix = String::from_str(".log");
    let n = name.unicode_len();
    let p = prefix.as_str().unicode_len();
    let q = suffix.as_str().unicode_len();
    let starts = p <= n && String::from_str(name.substring_char(0, p)) == prefix;
    let ends = q <= n && String::from_str(name.substring_char(n - q, n)) == suffix;
    assert(starts == (prefix@).is_prefix_of(name@)) by {
        if p <= n {
            if name@.subrange(0, p as int) == prefix@ {
                assert forall|i: int| 0 <= i < prefix@.len() implies prefix@[i] == name@[i] by {
                    assert(name@.subrange(0, p as int)[i] == name@[i]);
                }
            }
            if prefix@.is_prefix_of(name@) {
                assert(name@.subrange(0, p as int) =~= prefix@);
            }
        }
    }
    assert(ends == (suffix@).is_suffix_of(name@)) by {
        if q <= n {
            if name@.subrange(n - q, n as int) == suffix@ {
                assert forall|i: int| 0 <= i < suffix@.len() implies suffix@[i] == name@[name@.len() - suffix@.len() + i] by {
                    assert(name@.subrange(n - q, n as int)[i] == name@[n - q + i]);
                }
            }
            if suffix@.is_suffix_of(name@) {
                assert(name@.subrange(n - q, n as int) =~= suffix@);
            }
        }
    }
    starts && ends && String::from_str(name) != own
}

/// A log file seen in the log directory: its name and its modification time (in
/// nanoseconds from the Unix epoch; the epoch itself where it is not known).
pub struct LogFile {
    pub name: String,
    pub modified: i128,
}

/// The file at `i` is newer than the one at `j`: modified later, or at the same time and
/// listed later (the order in which the files are sorted, newest first).
pub open spec fn newer(logs: Seq<LogFile>, i: int, j: int) -> bool {
    logs[i].modified > logs[j].modified || (logs[i].modified == logs[j].modified && i > j)
}

/// `s` lists the indices of all rotated logs of `stem`, each once, newest first.
pub open spec fn newest_first(logs: Seq<LogFile>, stem: Seq<char>, s: Seq<usize>) -> bool {
    &&& forall|a: int| 0 <= a < s.len() ==> #[trigger] s[a] < logs.len() && is_rotated_log_of(logs[s[a] as int].name@, stem)
    &&& forall|a: int, b: int| 0 <= a < b < s.len() ==> newer(logs, #[trigger] s[a] as int, #[trigger] s[b] as int)
    &&& forall|i: int| 0 <= i < logs.len() && is_rotated_log_of(#[trigger] logs[i].name@, stem) ==> s.contains(i as usize)
}

/// The rotated logs of `stem` to remove: all but the `MAX_ROTATED_LOGS` newest, listed
/// newest first.
pub fn logs_to_remove(logs: &Vec<LogFile>, stem: &str) -> (r: Vec<usize>)
    ensures
        exists|s: Seq<usize>| newest_first(logs@, stem@, s) && r@ == if s.len() > MAX_ROTATED_LOGS {
            s.subrange(MAX_ROTATED_LOGS as int, s.len() as int)
        } else {
            Seq::<usize>::empty()
        },
{
    let n = logs.len();
    let mut cand: Vec<bool> = Vec::new();
    for i in 0..n
        invariant
            n == logs@.len(),
            cand@.len() == i,
            forall|a: int| 0 <= a < i ==> #[trigger] cand@[a] == is_rotated_log_of(logs@[a].name@, stem@),
    {
        cand.push(is_rotated_log(logs[i].name.as_str(), stem));
    }
    // Pick the newest remaining rotated log, again and again.
    let mut picks: Vec<usize> = Vec::new();
    let mut done = false;
    while !done
        invariant
            n == logs@.len(),
            cand@.len() == n,
            forall|a: int| 0 <= a < n ==> #[trigger] cand@[a] == is_rotated_log_of(logs@[a].name@, stem@),
            picks@.len() <= n,
            forall|a: int| 0 <= a < picks@.len() ==> #[trigger] picks@[a] < n && is_rotated_log_of(logs@[picks@[a] as int].name@, stem@),
            forall|a: int, b: int| 0 <= a < b < picks@.len() ==> newer(logs@, #[trigger] picks@[a] as int, #[trigger] picks@[b] as int),
            forall|a: int, i: int| #![trigger picks@[a], cand@[i]]
                0 <= a < picks@.len() && 0 <= i < n && cand@[i] && !picks@.contains(i as usize)
                ==> newer(logs@, picks@[a] as int, i),
            done ==> forall|i: int| 0 <= i < n && #[trigger] cand@[i] ==> picks@.contains(i as usize),
        decreases n - picks@.len(), if done { 0int } else { 1int },
    {
        let mut best: Option<usize> = None;
        for i in 0..n
            invariant
                n == logs@.len(),
                cand@.len() == n,
                match best {
                    Some(b) => b < i && cand@[b as int] && !picks@.contains(b)
                        && forall|x: int| 0 <= x < i && #[trigger] cand@[x] && !picks@.contains(x as usize) && x != b
                            ==> newer(logs@, b as int, x),
                    None => forall|x: int| 0 <= x < i && #[trigger] cand@[x] ==> picks@.contains(x as usize),
                },
        {
            if cand[i] {
                let mut taken = false;
                let k = picks.len();
                for a in 0..k
                    invariant
                        k == picks@.len(),
                        taken == exists|c: int| 0 <= c < a && picks@[c] == i,
                {
                    if picks[a] == i {
                        taken = true;
                    }
                }
                assert(taken == picks@.contains(i));
                if !taken {
                    let ghost old_best = best;
                    match best {
                        Some(b) => {
                            if logs[i].modified >= logs[b].modified {
                                best = Some(i);
                            }
                        },
                        None => {
                            best = Some(i);
                        },
                    }
                    proof {
                        match best {
                            Some(b) => {
                                assert forall|x: int| 0 <= x < i + 1 && #[trigger] cand@[x] && !picks@.contains(x as usize) && x != b
                                    implies newer(logs@, b as int, x) by {
                                    match old_best {
                                        Some(ob) => {
                                            if x != ob as int && x < i {
                                                assert(newer(logs@, ob as int, x));
                                            }
                                        },
                                        None => {},
                                    }
                                }
                            },
                            None => {},
                        }
                    }
                }
            }
        }
        match best {
            None => {
                done = true;
            },
            Some(b) => {
                let ghost old_picks = picks@;
                proof {
                    // Every pick so far is distinct from `b`, so there is room for one more.
                    assert(!old_picks.contains(b));
                    assert forall|a: int| 0 <= a < old_picks.len() implies #[trigger] old_picks[a] < n by {}
                    assert(old_picks.no_duplicates()) by {
                        assert forall|a: int, c: int| 0 <= a < old_picks.len() && 0 <= c < old_picks.len() && a != c
                            implies old_picks[a] != old_picks[c] by {
                            if a < c {
                                assert(newer(logs@, old_picks[a] as int, old_picks[c] as int));
                            } else {
                                assert(newer(logs@, old_picks[c] as int, old_picks[a] as int));
                            }
                        }
                    }
                    old_picks.unique_seq_to_set();
                    assert(old_picks.to_set().insert(b).subset_of(Set::new(|x: usize| x < n)));
                    lemma_usize_range_len(n);
                    vstd::set_lib::lemma_len_subset(old_picks.to_set().insert(b), Set::new(|x: usize| x < n));
                }
                picks.push(b);
                proof {
                    assert forall|a: int, c: int| 0 <= a < c < picks@.len() implies newer(logs@, #[trigger] picks@[a] as int, #[trigger] picks@[c] as int) by {
                        if c == picks@.len() - 1 {
                            assert(picks@[a] == old_picks[a]);
                            assert(cand@[b as int]);
                        } else {
                            assert(picks@[a] == old_picks[a] && picks@[c] == old_picks[c]);
                        }
                    }
                    assert forall|a: int, i: int| #![trigger picks@[a], cand@[i]]
                        0 <= a < picks@.len() && 0 <= i < n && cand@[i] && !picks@.contains(i as usize)
                        implies newer(logs@, picks@[a] as int, i) by {
                        assert(!old_picks.contains(i as usize)) by {
                            if old_picks.contains(i as usize) {
                                let c = choose|c: int| 0 <= c < old_picks.len() && old_picks[c] == i as usize;
                                assert(picks@[c] == i as usize);
                            }
                        }
                        assert(i != b as int) by {
                            assert(picks@[picks@.len() - 1] == b);
                        }
                        if a < old_picks.len() {
                            assert(picks@[a] == old_picks[a]);
                        }
                    }
                    assert forall|a: int| 0 <= a < picks@.len() implies #[trigger] picks@[a] < n && is_rotated_log_of(logs@[picks@[a] as int].name@, stem@) by {
                        if a < old_picks.len() { assert(picks@[a] == old_picks[a]); }
                    }
                }
            },
        }
    }
    let ghost s = picks@;
    assert(newest_first(logs@, stem@, s)) by {
        assert forall|i: int| 0 <= i < logs@.len() && is_rotated_log_of(#[trigger] logs@[i].name@, stem@) implies s.contains(i as usize) by {
            assert(cand@[i]);
        }
    }
    let mut r: Vec<usize> = Vec::new();
    let k = picks.len();
    if k > MAX_ROTATED_LOGS {
        for j in MAX_ROTATED_LOGS..k
            invariant
                k == picks@.len(),
                MAX_ROTATED_LOGS < k,
                r@ == picks@.subrange(MAX_ROTATED_LOGS as int, j as int),
        {
            r.push(picks[j]);
            assert(picks@.subrange(MAX_ROTATED_LOGS as int, j + 1) =~= picks@.subrange(MAX_ROTATED_LOGS as int, j as int).push(picks@[j as int]));
        }
    } else {
        assert(r@ =~= Seq::<usize>::empty());
    }
    r
}

/// The indices below `n` are `n` in number.
pub proof fn lemma_usize_range_len(n: usize)
    ensures
        Set::new(|x: usize| x < n).finite(),
        Set::new(|x: usize| x < n).len() == n,
    decreases n,
{
    if n == 0 {
        assert(Set::new(|x: usize| x < n) =~= Set::empty());
    } else {
        let m = (n - 1) as usize;
        lemma_usize_range_len(m);
        assert(Set::new(|x: usize| x < n) =~= Set::new(|x: usize| x < m).insert(m));
    }
}

} // verus!
