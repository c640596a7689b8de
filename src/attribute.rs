use vstd::prelude::*;
use crate::text::chars_of;
use crate::pipeline::views;

verus! {

/// `t` stands in `line` at index `k`.
pub open spec fn occurs_at(line: Seq<char>, t: Seq<char>, k: int) -> bool {
    0 <= k && k + t.len() <= line.len() && line.subrange(k, k + t.len() as int) == t
}

/// `t` stands somewhere in `line`, as a literal substring.
pub open spec fn occurs_in(t: Seq<char>, line: Seq<char>) -> bool {
    exists|k: int| occurs_at(line, t, k)
}

pub open spec fn occurs_pred(line: Seq<char>) -> spec_fn(Seq<char>) -> bool {
    |t: Seq<char>| occurs_in(t, line)
}

/// The tokens of `ts` that stand in `line`, in order.
pub open spec fn matching(ts: Seq<Seq<char>>, line: Seq<char>) -> Seq<Seq<char>> {
    ts.filter(occurs_pred(line))
}

/// `ts` with every repeat after the first occurrence left out.
pub open spec fn distinct_of(ts: Seq<Seq<char>>) -> Seq<Seq<char>>
    decreases ts.len(),
{
    if ts.len() == 0 {
        Seq::empty()
    } else {
        let p = distinct_of(ts.drop_last());
        if p.contains(ts.last()) {
            p
        } else {
            p.push(ts.last())
        }
    }
}

/// The distinct unknown tokens that stand in `line`, in order of first occurrence.
pub open spec fn line_report(line: Seq<char>, unknown: Seq<Seq<char>>) -> Seq<Seq<char>> {
    matching(distinct_of(unknown), line)
}

pub(crate) fn matches_at(line: &Vec<char>, t: &Vec<char>, k: usize) -> (r: bool)
    requires
        k <= line@.len(),
    ensures
        r == occurs_at(line@, t@, k as int),
{
    let n = line.len();
    let m = t.len();
    if m > n - k {
        return false;
    }
    let mut j: usize = 0;
    while j < m
        invariant
            n == line@.len(),
            m == t@.len(),
            k + m <= n,
            j <= m,
            forall|jj: int| 0 <= jj < j ==> line@[k + jj] == t@[jj],
        decreases m - j,
    {
        if line[k + j] != t[j] {
            assert(line@.subrange(k as int, k + m)[j as int] != t@[j as int]);
            return false;
        }
        j = j + 1;
    }
    assert(line@.subrange(k as int, k + m) =~= t@);
    true
}

fn occurs(line: &Vec<char>, t: &Vec<char>) -> (r: bool)
    ensures
        r == occurs_in(t@, line@),
{
    let n = line.len();
    let m = t.len();
    if m > n {
        assert(forall|k: int| !occurs_at(line@, t@, k));
        return false;
    }
    let mut k: usize = 0;
    loop
        invariant
            n == line@.len(),
            m == t@.len(),
            m <= n,
            k <= n - m,
            forall|kk: int| 0 <= kk < k ==> !occurs_at(line@, t@, kk),
        decreases n - m - k,
    {
        if matches_at(line, t, k) {
            return true;
        }
        if k == n - m {
            assert(forall|kk: int| !occurs_at(line@, t@, kk));
            return false;
        }
        k = k + 1;
    }
}

proof fn lemma_distinct_contains(ts: Seq<Seq<char>>, t: Seq<char>)
    ensures
        distinct_of(ts).contains(t) == ts.contains(t),
    decreases ts.len(),
{
    if ts.len() > 0 {
        let p = ts.drop_last();
        let x = ts.last();
        let pd = distinct_of(p);
        lemma_distinct_contains(p, t);
        assert(ts.contains(t) == (p.contains(t) || x == t)) by {
            if ts.contains(t) && x != t {
                let j = choose|j: int| 0 <= j < ts.len() && ts[j] == t;
                assert(p[j] == t);
            }
            if p.contains(t) {
                let j = choose|j: int| 0 <= j < p.len() && p[j] == t;
                assert(ts[j] == t);
            }
            if x == t {
                assert(ts[ts.len() - 1] == t);
            }
        }
        if !pd.contains(x) {
            assert(pd.push(x).contains(t) == (pd.contains(t) || x == t)) by {
                if pd.push(x).contains(t) && x != t {
                    let j = choose|j: int| 0 <= j < pd.push(x).len() && pd.push(x)[j] == t;
                    assert(pd[j] == t);
                }
                if pd.contains(t) {
                    let j = choose|j: int| 0 <= j < pd.len() && pd[j] == t;
                    assert(pd.push(x)[j] == t);
                }
                if x == t {
                    assert(pd.push(x)[pd.len() as int] == t);
                }
            }
        }
    }
}

proof fn lemma_filter_keeps(ts: Seq<Seq<char>>, f: spec_fn(Seq<char>) -> bool, t: Seq<char>)
    requires
        ts.contains(t),
        f(t),
    ensures
        ts.filter(f).contains(t),
    decreases ts.len(),
{
    reveal_with_fuel(Seq::filter, 1);
    let p = ts.drop_last();
    if ts.last() == t {
        assert(ts.filter(f) == p.filter(f).push(t));
        assert(ts.filter(f)[p.filter(f).len() as int] == t);
    } else {
        let j = choose|j: int| 0 <= j < ts.len() && ts[j] == t;
        assert(p[j] == t);
        lemma_filter_keeps(p, f, t);
        let k = choose|k: int| 0 <= k < p.filter(f).len() && p.filter(f)[k] == t;
        if f(ts.last()) {
            assert(ts.filter(f)[k] == t);
        }
    }
}

/// Attribution is exhaustive: every line in which an unknown token stands
/// lists that token.
pub proof fn lemma_attribution_exhaustive(line: Seq<char>, unknown: Seq<Seq<char>>, t: Seq<char>)
    requires
        unknown.contains(t),
        occurs_in(t, line),
    ensures
        line_report(line, unknown).contains(t),
{
    lemma_distinct_contains(unknown, t);
    lemma_filter_keeps(distinct_of(unknown), occurs_pred(line), t);
}

fn dedup(ts: &Vec<String>) -> (r: Vec<String>)
    ensures
        views(r@) == distinct_of(views(ts@)),
{
    let mut out: Vec<String> = Vec::new();
    let mut i: usize = 0;
    while i < ts.len()
        invariant
            i <= ts@.len(),
            views(out@) == distinct_of(views(ts@).take(i as int)),
        decreases ts@.len() - i,
    {
        let t = &ts[i];
        let mut seen = false;
        let mut j: usize = 0;
        while j < out.len()
            invariant
                i < ts@.len(),
                t == ts@[i as int],
                j <= out@.len(),
                seen == exists|jj: int| 0 <= jj < j && out@[jj]@ == t@,
            decreases out@.len() - j,
        {
            if out[j] == *t {
                seen = true;
            }
            j = j + 1;
        }
        proof {
            let next = views(ts@).take(i + 1);
            assert(next.drop_last() =~= views(ts@).take(i as int));
            assert(next.last() == t@);
            if seen {
                let jj = choose|jj: int| 0 <= jj < out@.len() && out@[jj]@ == t@;
                assert(views(out@)[jj] == t@);
            }
            if views(out@).contains(t@) {
                let jj = choose|jj: int| 0 <= jj < views(out@).len() && views(out@)[jj] == t@;
                assert(out@[jj]@ == t@);
            }
        }
        if !seen {
            let c = t.clone();
            assert(views(out@.push(c)) =~= views(out@).push(t@));
            out.push(c);
        }
        i = i + 1;
    }
    assert(views(ts@).take(ts@.len() as int) =~= views(ts@));
    out
}

pub(crate) fn chars_of_all(ts: &Vec<String>) -> (r: Vec<Vec<char>>)
    ensures
        r@.len() == ts@.len(),
        forall|j: int| 0 <= j < ts@.len() ==> #[trigger] r@[j]@ == ts@[j]@,
{
    let mut out: Vec<Vec<char>> = Vec::new();
    let mut i: usize = 0;
    while i < ts.len()
        invariant
            i <= ts@.len(),
            out@.len() == i,
            forall|j: int| 0 <= j < i ==> #[trigger] out@[j]@ == ts@[j]@,
        decreases ts@.len() - i,
    {
        out.push(chars_of(ts[i].as_str()));
        i = i + 1;
    }
    out
}

/// For each line, the distinct unknown tokens that stand in it as literal
/// substrings, in order of their first occurrence among the unknown tokens.
pub fn attribute(lines: &Vec<String>, unknown: &Vec<String>) -> (r: Vec<Vec<String>>)
    ensures
        r@.len() == lines@.len(),
        forall|i: int| 0 <= i < lines@.len()
            ==> views(#[trigger] r@[i]@) == line_report(lines@[i]@, views(unknown@)),
{
    let d = dedup(unknown);
    let dcs = chars_of_all(&d);
    let mut out: Vec<Vec<String>> = Vec::new();
    let mut i: usize = 0;
    while i < lines.len()
        invariant
            i <= lines@.len(),
            out@.len() == i,
            views(d@) == distinct_of(views(unknown@)),
            dcs@.len() == d@.len(),
            forall|j: int| 0 <= j < d@.len() ==> #[trigger] dcs@[j]@ == d@[j]@,
            forall|ii: int| 0 <= ii < i
                ==> views(#[trigger] out@[ii]@) == line_report(lines@[ii]@, views(unknown@)),
        decreases lines@.len() - i,
    {
        let lc = chars_of(lines[i].as_str());
        let mut row: Vec<String> = Vec::new();
        let mut j: usize = 0;
        while j < d.len()
            invariant
                i < lines@.len(),
                lc@ == lines@[i as int]@,
                j <= d@.len(),
                dcs@.len() == d@.len(),
                forall|jj: int| 0 <= jj < d@.len() ==> #[trigger] dcs@[jj]@ == d@[jj]@,
                views(row@) == matching(views(d@).take(j as int), lc@),
            decreases d@.len() - j,
        {
            let hit = occurs(&lc, &dcs[j]);
            proof {
                let next = views(d@).take(j + 1);
                assert(next.drop_last() =~= views(d@).take(j as int));
                assert(next.last() == d@[j as int]@);
                reveal_with_fuel(Seq::filter, 1);
            }
            if hit {
                let c = d[j].clone();
                assert(views(row@.push(c)) =~= views(row@).push(d@[j as int]@));
                row.push(c);
            }
            j = j + 1;
        }
        assert(views(d@).take(d@.len() as int) =~= views(d@));
        out.push(row);
        i = i + 1;
    }
    out
}

} // verus!
