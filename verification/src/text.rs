use vstd::prelude::*;
use vstd::arithmetic::div_mod::lemma_fundamental_div_mod_converse;

verus! {

/// The decimal digits of `n`, most significant first, without leading zeros ("0" for zero).
pub open spec fn decimal(n: nat) -> Seq<char>
    decreases n,
{
    if n < 10 {
        seq![digit_char(n)]
    } else {
        decimal(n / 10).push(digit_char(n % 10))
    }
}

/// The character of a single decimal digit.
pub open spec fn digit_char(d: nat) -> char {
    if d == 0 { '0' } else if d == 1 { '1' } else if d == 2 { '2' } else if d == 3 { '3' }
    else if d == 4 { '4' } else if d == 5 { '5' } else if d == 6 { '6' } else if d == 7 { '7' }
    else if d == 8 { '8' } else { '9' }
}

fn digit_str(d: u64) -> (s: &'static str)
    requires
        d < 10,
    ensures
        s@ == seq![digit_char(d as nat)],
{
    if d == 0 {
        proof { reveal_strlit("0"); }
        "0"
    } else if d == 1 {
        proof { reveal_strlit("1"); }
        "1"
    } else if d == 2 {
        proof { reveal_strlit("2"); }
        "2"
    } else if d == 3 {
        proof { reveal_strlit("3"); }
        "3"
    } else if d == 4 {
        proof { reveal_strlit("4"); }
        "4"
    } else if d == 5 {
        proof { reveal_strlit("5"); }
        "5"
    } else if d == 6 {
        proof { reveal_strlit("6"); }
        "6"
    } else if d == 7 {
        proof { reveal_strlit("7"); }
        "7"
    } else if d == 8 {
        proof { reveal_strlit("8"); }
        "8"
    } else {
        proof { reveal_strlit("9"); }
        "9"
    }
}

/// Appends the decimal digits of `n` to `out`.
pub fn push_decimal(out: &mut String, n: u64)
    ensures
        final(out)@ == old(out)@ + decimal(n as nat),
    decreases n,
{
    if n < 10 {
        out.append(digit_str(n));
    } else {
        push_decimal(out, n / 10);
        out.append(digit_str(n % 10));
    }
}

/// The decimal representation of `n`.
pub fn u64_to_decimal(n: u64) -> (s: String)
    ensures
        s@ == decimal(n as nat),
{
    let mut s = String::new();
    push_decimal(&mut s, n);
    assert(s@ == decimal(n as nat));
    s
}


/// The pieces of `parts` with `sep` between each two neighbours.
pub open spec fn join(parts: Seq<Seq<char>>, sep: Seq<char>) -> Seq<char>
    decreases parts.len(),
{
    if parts.len() == 0 {
        Seq::empty()
    } else if parts.len() == 1 {
        parts[0]
    } else {
        join(parts.drop_last(), sep) + sep + parts.last()
    }
}

/// The views of a sequence of strings.
pub open spec fn views(v: Seq<String>) -> Seq<Seq<char>> {
    v.map_values(|s: String| s@)
}

/// Joins `parts` with `sep` between each two neighbours.
pub fn join_strings(parts: &Vec<String>, sep: &str) -> (r: String)
    ensures
        r@ == join(views(parts@), sep@),
{
    let mut r = String::new();
    let n = parts.len();
    let ghost ps = views(parts@);
    for i in 0..n
        invariant
            n == parts@.len(),
            ps == views(parts@),
            r@ == join(ps.take(i as int), sep@),
    {
        assert(ps.take(i + 1).drop_last() =~= ps.take(i as int));
        if i == 0 {
            r.append(parts[i].as_str());
            assert(ps.take(1).len() == 1);
        } else {
            r.append(sep);
            r.append(parts[i].as_str());
        }
    }
    assert(ps.take(n as int) =~= ps);
    r
}

/// The parts of a duration of `secs` seconds that are not zero: days, hours, minutes.
pub open spec fn hms_parts(secs: nat) -> Seq<Seq<char>> {
    let d = secs / 86400;
    let h = (secs / 3600) % 24;
    let m = (secs / 60) % 60;
    (if d > 0 { seq![decimal(d) + "d"@] } else { seq![] })
        + (if h > 0 { seq![decimal(h) + "h"@] } else { seq![] })
        + (if m > 0 { seq![decimal(m) + "m"@] } else { seq![] })
}

/// A duration of `secs` seconds as days, hours and minutes ("1d 2h 5m"), leaving out the
/// parts that are zero; seconds are shown ("42s") only where all three are zero.
pub open spec fn hms(secs: nat) -> Seq<char> {
    if hms_parts(secs).len() == 0 {
        decimal(secs % 60) + "s"@
    } else {
        join(hms_parts(secs), " "@)
    }
}

/// Formats a duration of `secs` seconds as days, hours and minutes ("1d 2h 5m"); seconds
/// are shown ("42s") only for durations under a minute.
pub fn to_hms(secs: u64) -> (r: String)
    ensures
        r@ == hms(secs as nat),
{
    let d = secs / 86400;
    let h = (secs / 3600) % 24;
    let m = (secs / 60) % 60;
    let mut parts: Vec<String> = Vec::new();
    if d > 0 {
        let mut p = u64_to_decimal(d);
        p.append("d");
        parts.push(p);
    }
    if h > 0 {
        let mut p = u64_to_decimal(h);
        p.append("h");
        parts.push(p);
    }
    if m > 0 {
        let mut p = u64_to_decimal(m);
        p.append("m");
        parts.push(p);
    }
    assert(views(parts@) =~= hms_parts(secs as nat));
    if parts.len() == 0 {
        let mut p = u64_to_decimal(secs % 60);
        p.append("s");
        p
    } else {
        join_strings(&parts, " ")
    }
}

proof fn lemma_join_small(a: Seq<char>, b: Seq<char>, c: Seq<char>, sep: Seq<char>)
    ensures
        join(seq![a], sep) == a,
        join(seq![a, b], sep) == a + sep + b,
        join(seq![a, b, c], sep) == a + sep + b + sep + c,
{
    assert(seq![a].len() == 1 && seq![a][0] == a);
    assert(join(seq![a], sep) == a);
    assert(seq![a, b].drop_last() =~= seq![a]);
    assert(seq![a, b].len() == 2 && seq![a, b].last() == b);
    assert(join(seq![a, b], sep) == a + sep + b);
    assert(seq![a, b, c].drop_last() =~= seq![a, b]);
    assert(seq![a, b, c].len() == 3 && seq![a, b, c].last() == c);
}

/// A duration of `d` days, `h` hours, `m` minutes and `s` seconds (each of the last three
/// under its unit's range) is shown as its non-zero days, hours and minutes, in that
/// order, each followed by its unit and separated by single spaces; a duration with no
/// whole minute is shown as its seconds.
pub proof fn law_hms_fields(d: nat, h: nat, m: nat, s: nat)
    requires
        h < 24,
        m < 60,
        s < 60,
    ensures
        ({
            let t = d * 86400 + h * 3600 + m * 60 + s;
            &&& d > 0 && h > 0 && m > 0 ==> hms(t) == decimal(d) + "d"@ + " "@ + decimal(h) + "h"@ + " "@ + decimal(m) + "m"@
            &&& d > 0 && h > 0 && m == 0 ==> hms(t) == decimal(d) + "d"@ + " "@ + decimal(h) + "h"@
            &&& d > 0 && h == 0 && m > 0 ==> hms(t) == decimal(d) + "d"@ + " "@ + decimal(m) + "m"@
            &&& d > 0 && h == 0 && m == 0 ==> hms(t) == decimal(d) + "d"@
            &&& d == 0 && h > 0 && m > 0 ==> hms(t) == decimal(h) + "h"@ + " "@ + decimal(m) + "m"@
            &&& d == 0 && h > 0 && m == 0 ==> hms(t) == decimal(h) + "h"@
            &&& d == 0 && h == 0 && m > 0 ==> hms(t) == decimal(m) + "m"@
            &&& d == 0 && h == 0 && m == 0 ==> hms(t) == decimal(s) + "s"@
        }),
{
    let t = d * 86400 + h * 3600 + m * 60 + s;
    assert(t == d * 86400 + (h * 3600 + m * 60 + s));
    assert(h * 3600 + m * 60 + s < 86400);
    lemma_fundamental_div_mod_converse(t as int, 86400, d as int, (h * 3600 + m * 60 + s) as int);
    assert(t == (d * 24 + h) * 3600 + (m * 60 + s));
    lemma_fundamental_div_mod_converse(t as int, 3600, (d * 24 + h) as int, (m * 60 + s) as int);
    lemma_fundamental_div_mod_converse((d * 24 + h) as int, 24, d as int, h as int);
    assert(t == (d * 1440 + h * 60 + m) * 60 + s);
    lemma_fundamental_div_mod_converse(t as int, 60, (d * 1440 + h * 60 + m) as int, s as int);
    lemma_fundamental_div_mod_converse((d * 1440 + h * 60 + m) as int, 60, (d * 24 + h) as int, m as int);
    assert(t / 86400 == d);
    assert((t / 3600) % 24 == h);
    assert((t / 60) % 60 == m);
    assert(t % 60 == s);
    let pd = decimal(d) + "d"@;
    let ph = decimal(h) + "h"@;
    let pm = decimal(m) + "m"@;
    let parts = hms_parts(t);
    assert(parts == (if d > 0 { seq![pd] } else { seq![] }) + (if h > 0 { seq![ph] } else { seq![] })
        + (if m > 0 { seq![pm] } else { seq![] }));
    if d > 0 && h > 0 && m > 0 {
        assert(parts =~= seq![pd, ph, pm]);
        lemma_join_small(pd, ph, pm, " "@);
        assert(hms(t) =~= decimal(d) + "d"@ + " "@ + decimal(h) + "h"@ + " "@ + decimal(m) + "m"@);
    } else if d > 0 && h > 0 {
        assert(parts =~= seq![pd, ph]);
        lemma_join_small(pd, ph, pm, " "@);
        assert(hms(t) =~= decimal(d) + "d"@ + " "@ + decimal(h) + "h"@);
    } else if d > 0 && m > 0 {
        assert(parts =~= seq![pd, pm]);
        lemma_join_small(pd, pm, pm, " "@);
        assert(hms(t) =~= decimal(d) + "d"@ + " "@ + decimal(m) + "m"@);
    } else if d > 0 {
        assert(parts =~= seq![pd]);
        lemma_join_small(pd, pm, pm, " "@);
    } else if h > 0 && m > 0 {
        assert(parts =~= seq![ph, pm]);
        lemma_join_small(ph, pm, pm, " "@);
        assert(hms(t) =~= decimal(h) + "h"@ + " "@ + decimal(m) + "m"@);
    } else if h > 0 {
        assert(parts =~= seq![ph]);
        lemma_join_small(ph, pm, pm, " "@);
    } else if m > 0 {
        assert(parts =~= seq![pm]);
        lemma_join_small(pm, pm, pm, " "@);
    } else {
        assert(parts =~= Seq::<Seq<char>>::empty());
    }
}

} // verus!
