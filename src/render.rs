use vstd::prelude::*;
use crate::text::{chars_of, string_of, push_str};
use crate::pipeline::{views, joined_with};
use crate::attribute::{occurs_at, matches_at, chars_of_all};

verus! {

/// Index of the first pattern from `k` on that is non-empty and stands in
/// `line` at `i`, or -1.
pub open spec fn first_match(line: Seq<char>, pats: Seq<Seq<char>>, i: int, k: int) -> int
    decreases pats.len() - k,
{
    if k >= pats.len() || k < 0 {
        -1
    } else if pats[k].len() > 0 && occurs_at(line, pats[k], i) {
        k
    } else {
        first_match(line, pats, i, k + 1)
    }
}

/// The spans of `line[i..]` that the patterns flag, scanning left to right:
/// at each index the first pattern in list order that stands there wins, and
/// scanning resumes after its span.
pub open spec fn spans_from(line: Seq<char>, pats: Seq<Seq<char>>, i: int) -> Seq<(int, int)>
    decreases line.len() - i,
{
    if i >= line.len() || i < 0 {
        Seq::empty()
    } else {
        let k = first_match(line, pats, i, 0);
        if 0 <= k < pats.len() && pats[k].len() > 0 && i + pats[k].len() <= line.len() {
            seq![(i, i + pats[k].len())] + spans_from(line, pats, i + pats[k].len())
        } else {
            spans_from(line, pats, i + 1)
        }
    }
}

pub open spec fn span_ints(v: Seq<(usize, usize)>) -> Seq<(int, int)> {
    v.map_values(|p: (usize, usize)| (p.0 as int, p.1 as int))
}

/// The character spans `(start, end)` of `line` to show as misspelt: the
/// leftmost matches of the patterns, taken as literal text, that do not overlap.
pub fn highlight_spans(line: &str, patterns: &Vec<String>) -> (r: Vec<(usize, usize)>)
    ensures
        span_ints(r@) == spans_from(line@, views(patterns@), 0),
{
    let lc = chars_of(line);
    let n = lc.len();
    let pcs = chars_of_all(patterns);
    let ghost pats = views(patterns@);
    let mut out: Vec<(usize, usize)> = Vec::new();
    let mut i: usize = 0;
    while i < n
        invariant
            n == lc@.len(),
            lc@ == line@,
            i <= n,
            pats == views(patterns@),
            pcs@.len() == pats.len(),
            forall|j: int| 0 <= j < pats.len() ==> #[trigger] pcs@[j]@ == pats[j],
            span_ints(out@) + spans_from(line@, pats, i as int) == spans_from(line@, pats, 0),
        decreases n - i,
    {
        let mut k: usize = 0;
        while k < pcs.len() && !(pcs[k].len() > 0 && matches_at(&lc, &pcs[k], i))
            invariant
                n == lc@.len(),
                lc@ == line@,
                i < n,
                k <= pcs@.len(),
                pcs@.len() == pats.len(),
                forall|j: int| 0 <= j < pats.len() ==> #[trigger] pcs@[j]@ == pats[j],
                first_match(line@, pats, i as int, k as int) == first_match(line@, pats, i as int, 0),
            decreases pcs@.len() - k,
        {
            k = k + 1;
        }
        if k < pcs.len() {
            let e = i + pcs[k].len();
            assert(span_ints(out@.push((i, e))) =~= span_ints(out@).push((i as int, e as int)));
            assert(span_ints(out@).push((i as int, e as int)) + spans_from(line@, pats, e as int)
                =~= span_ints(out@) + spans_from(line@, pats, i as int));
            out.push((i, e));
            i = e;
        } else {
            i = i + 1;
        }
    }
    assert(span_ints(out@) + spans_from(line@, pats, n as int) =~= span_ints(out@));
    out
}

pub open spec fn digit(d: nat) -> char {
    if d == 0 { '0' } else if d == 1 { '1' } else if d == 2 { '2' } else if d == 3 { '3' }
    else if d == 4 { '4' } else if d == 5 { '5' } else if d == 6 { '6' } else if d == 7 { '7' }
    else if d == 8 { '8' } else { '9' }
}

/// The decimal digits of `n`, without leading zeros.
pub open spec fn decimal(n: nat) -> Seq<char>
    decreases n,
{
    if n < 10 {
        seq![digit(n)]
    } else {
        decimal(n / 10) + seq![digit(n % 10)]
    }
}

fn digit_char(d: usize) -> (c: char)
    requires
        d < 10,
    ensures
        c == digit(d as nat),
{
    if d == 0 { '0' } else if d == 1 { '1' } else if d == 2 { '2' } else if d == 3 { '3' }
    else if d == 4 { '4' } else if d == 5 { '5' } else if d == 6 { '6' } else if d == 7 { '7' }
    else if d == 8 { '8' } else { '9' }
}

fn push_decimal(out: &mut Vec<char>, n: usize)
    ensures
        final(out)@ == old(out)@ + decimal(n as nat),
    decreases n,
{
    if n >= 10 {
        push_decimal(out, n / 10);
    }
    let c = digit_char(n % 10);
    out.push(c);
    assert(final(out)@ =~= old(out)@ + decimal(n as nat));
}

pub open spec fn summary_line(n: nat) -> Seq<char> {
    "Checked "@ + decimal(n) + " words."@
}

pub open spec fn all_clear_line() -> Seq<char> {
    "All clear! Manually check text in functions and equations."@
}

/// The report line of line index `i`: its number and its tokens, comma-separated.
pub open spec fn line_entry(i: nat, row: Seq<Seq<char>>) -> Seq<char> {
    "Line "@ + decimal(i) + ": "@ + joined_with(row, ", "@)
}

/// The entries of the rows that list a token, in line order.
pub open spec fn entries(rows: Seq<Seq<Seq<char>>>) -> Seq<Seq<char>>
    decreases rows.len(),
{
    if rows.len() == 0 {
        Seq::empty()
    } else if rows.last().len() == 0 {
        entries(rows.drop_last())
    } else {
        entries(rows.drop_last()).push(line_entry((rows.len() - 1) as nat, rows.last()))
    }
}

pub open spec fn rows_view(rows: Seq<Vec<String>>) -> Seq<Seq<Seq<char>>> {
    rows.map_values(|v: Vec<String>| views(v@))
}

/// The report: the word count, then one entry per line that lists a token,
/// or the all-clear line where no line does.
pub open spec fn report(n: nat, rows: Seq<Seq<Seq<char>>>) -> Seq<Seq<char>> {
    if forall|i: int| 0 <= i < rows.len() ==> #[trigger] rows[i].len() == 0 {
        seq![summary_line(n), all_clear_line()]
    } else {
        seq![summary_line(n)] + entries(rows)
    }
}

fn entry_text(i: usize, row: &Vec<String>) -> (r: String)
    ensures
        r@ == line_entry(i as nat, views(row@)),
{
    let mut cs: Vec<char> = Vec::new();
    push_str(&mut cs, "Line ");
    push_decimal(&mut cs, i);
    push_str(&mut cs, ": ");
    let ghost head = cs@;
    let mut j: usize = 0;
    while j < row.len()
        invariant
            j <= row@.len(),
            cs@ == head + joined_with(views(row@).take(j as int), ", "@),
        decreases row@.len() - j,
    {
        let ghost before = cs@;
        if j > 0 {
            push_str(&mut cs, ", ");
        }
        let mut w = chars_of(row[j].as_str());
        cs.append(&mut w);
        proof {
            let t = views(row@).take(j + 1);
            assert(t.drop_last() =~= views(row@).take(j as int));
            assert(t.last() == row@[j as int]@);
            if j == 0 {
                assert(views(row@).take(0) =~= Seq::<Seq<char>>::empty());
                assert(cs@ =~= head + t[0]);
            } else {
                assert(cs@ =~= head + (joined_with(t.drop_last(), ", "@) + ", "@ + t.last()));
            }
        }
        j = j + 1;
    }
    assert(views(row@).take(row@.len() as int) =~= views(row@));
    string_of(&cs)
}

/// Renders the report of a check: the number of words checked, then for each
/// line (numbered from 0) that holds unknown tokens, those tokens; where no
/// line holds one, an all-clear line.
pub fn report_lines(word_count: usize, rows: &Vec<Vec<String>>) -> (r: Vec<String>)
    ensures
        views(r@) == report(word_count as nat, rows_view(rows@)),
{
    let ghost rv = rows_view(rows@);
    let mut head: Vec<char> = Vec::new();
    push_str(&mut head, "Checked ");
    push_decimal(&mut head, word_count);
    push_str(&mut head, " words.");
    let mut out: Vec<String> = Vec::new();
    out.push(string_of(&head));
    assert(views(out@) =~= seq![summary_line(word_count as nat)]);
    let mut any = false;
    let mut i: usize = 0;
    while i < rows.len()
        invariant
            i <= rows@.len(),
            rv == rows_view(rows@),
            any == exists|ii: int| 0 <= ii < i && #[trigger] rv[ii].len() > 0,
            views(out@) == seq![summary_line(word_count as nat)] + entries(rv.take(i as int)),
        decreases rows@.len() - i,
    {
        let ghost prev = views(out@);
        proof {
            let t = rv.take(i + 1);
            assert(t.drop_last() =~= rv.take(i as int));
            assert(t.last() == views(rows@[i as int]@));
            assert(rv[i as int] == views(rows@[i as int]@));
        }
        if rows[i].len() > 0 {
            let e = entry_text(i, &rows[i]);
            assert(views(out@.push(e)) =~= prev.push(e@));
            out.push(e);
            any = true;
        }
        i = i + 1;
    }
    assert(rv.take(rows@.len() as int) =~= rv);
    if !any {
        let mut out2: Vec<String> = Vec::new();
        out2.push(string_of(&head));
        let msg = chars_of("All clear! Manually check text in functions and equations.");
        out2.push(string_of(&msg));
        assert(views(out2@) =~= seq![summary_line(word_count as nat), all_clear_line()]);
        return out2;
    }
    out
}

} // verus!
