use vstd::prelude::*;
use crate::text::{chars_of, string_of};

verus! {

pub open spec fn is_paren(c: char) -> bool {
    c == '(' || c == ')'
}

/// First index at or after `k` that holds a parenthesis, or the length.
pub open spec fn next_paren(s: Seq<char>, k: int) -> int
    decreases s.len() - k,
{
    if k >= s.len() || k < 0 {
        s.len() as int
    } else if is_paren(s[k]) {
        k
    } else {
        next_paren(s, k + 1)
    }
}

/// One left-to-right pass over `s[i..]` that removes every group `( ... )`
/// holding no parenthesis inside.
pub open spec fn pass_from(s: Seq<char>, i: int) -> Seq<char>
    decreases s.len() - i,
{
    if i >= s.len() || i < 0 {
        Seq::empty()
    } else {
        let j = next_paren(s, i + 1);
        if s[i] == '(' && i < j < s.len() && s[j] == ')' {
            pass_from(s, j + 1)
        } else {
            seq![s[i]] + pass_from(s, i + 1)
        }
    }
}

pub open spec fn innermost_pass(s: Seq<char>) -> Seq<char> {
    pass_from(s, 0)
}

/// Innermost groups removed again and again, until a pass removes nothing.
pub open spec fn parens_removed(s: Seq<char>) -> Seq<char>
    decreases s.len(),
{
    let t = innermost_pass(s);
    if t.len() < s.len() {
        parens_removed(t)
    } else {
        s
    }
}

fn pass(cs: &Vec<char>) -> (r: Vec<char>)
    ensures
        r@ == innermost_pass(cs@),
{
    let n = cs.len();
    let mut out: Vec<char> = Vec::new();
    let mut i: usize = 0;
    while i < n
        invariant
            n == cs@.len(),
            i <= n,
            out@ + pass_from(cs@, i as int) == innermost_pass(cs@),
        decreases n - i,
    {
        let c = cs[i];
        if c == '(' {
            let mut k: usize = i + 1;
            while k < n && cs[k] != '(' && cs[k] != ')'
                invariant
                    n == cs@.len(),
                    i < k <= n,
                    next_paren(cs@, k as int) == next_paren(cs@, i + 1),
                decreases n - k,
            {
                k = k + 1;
            }
            if k < n && cs[k] == ')' {
                i = k + 1;
                continue;
            }
        }
        assert(out@.push(c) + pass_from(cs@, i + 1) =~= out@ + pass_from(cs@, i as int));
        out.push(c);
        i = i + 1;
    }
    assert(out@ + pass_from(cs@, n as int) =~= out@);
    out
}

/// Removes parenthetical asides, nested ones included: innermost groups are
/// removed until none is left.
pub fn strip_parenthesized(input: &str) -> (r: String)
    ensures
        r@ == parens_removed(input@),
{
    let mut cur = chars_of(input);
    loop
        invariant
            parens_removed(cur@) == parens_removed(input@),
        decreases cur@.len(),
    {
        let next = pass(&cur);
        if next.len() < cur.len() {
            cur = next;
        } else {
            return string_of(&cur);
        }
    }
}

/// The stage reaches a fixed point: applied to its own output it changes nothing.
pub proof fn lemma_parens_idempotent(s: Seq<char>)
    ensures
        parens_removed(parens_removed(s)) == parens_removed(s),
    decreases s.len(),
{
    let t = innermost_pass(s);
    if t.len() < s.len() {
        lemma_parens_idempotent(t);
    }
}

/// Whether `s[i..]` holds parentheses that alternate `(` and `)` without
/// nesting and close every group; `open` says a group is open at `i`.
pub open spec fn flat_from(s: Seq<char>, i: int, open: bool) -> bool
    decreases s.len() - i,
{
    if i >= s.len() || i < 0 {
        !open
    } else if s[i] == '(' {
        !open && flat_from(s, i + 1, true)
    } else if s[i] == ')' {
        open && flat_from(s, i + 1, false)
    } else {
        flat_from(s, i + 1, open)
    }
}

/// Balanced parentheses, none nested in another group.
pub open spec fn flat_balanced(s: Seq<char>) -> bool {
    flat_from(s, 0, false)
}

/// `s[i..]` without the characters of its groups, parentheses included.
pub open spec fn groups_dropped_from(s: Seq<char>, i: int, open: bool) -> Seq<char>
    decreases s.len() - i,
{
    if i >= s.len() || i < 0 {
        Seq::empty()
    } else if s[i] == '(' {
        groups_dropped_from(s, i + 1, true)
    } else if s[i] == ')' {
        groups_dropped_from(s, i + 1, false)
    } else if open {
        groups_dropped_from(s, i + 1, open)
    } else {
        seq![s[i]] + groups_dropped_from(s, i + 1, open)
    }
}

pub open spec fn groups_dropped(s: Seq<char>) -> Seq<char> {
    groups_dropped_from(s, 0, false)
}

proof fn lemma_inside_group(s: Seq<char>, k: int)
    requires
        0 <= k <= s.len(),
        flat_from(s, k, true),
    ensures
        k <= next_paren(s, k) < s.len(),
        s[next_paren(s, k)] == ')',
        flat_from(s, next_paren(s, k) + 1, false),
        groups_dropped_from(s, k, true) == groups_dropped_from(s, next_paren(s, k) + 1, false),
    decreases s.len() - k,
{
    if k < s.len() && !is_paren(s[k]) {
        lemma_inside_group(s, k + 1);
    }
}

proof fn lemma_pass_on_flat(s: Seq<char>, i: int)
    requires
        0 <= i <= s.len(),
        flat_from(s, i, false),
    ensures
        pass_from(s, i) == groups_dropped_from(s, i, false),
    decreases s.len() - i,
{
    if i < s.len() {
        if s[i] == '(' {
            lemma_inside_group(s, i + 1);
            lemma_pass_on_flat(s, next_paren(s, i + 1) + 1);
        } else {
            lemma_pass_on_flat(s, i + 1);
        }
    }
}

proof fn lemma_dropped_has_no_paren(s: Seq<char>, i: int, open: bool)
    requires
        0 <= i <= s.len(),
    ensures
        forall|m: int| 0 <= m < groups_dropped_from(s, i, open).len()
            ==> !is_paren(#[trigger] groups_dropped_from(s, i, open)[m]),
        groups_dropped_from(s, i, open).len() <= s.len() - i,
    decreases s.len() - i,
{
    if i < s.len() {
        lemma_dropped_has_no_paren(s, i + 1, s[i] == '(' || (open && s[i] != ')'));
    }
}

proof fn lemma_dropped_shorter(s: Seq<char>, i: int, open: bool, k: int)
    requires
        0 <= i <= k < s.len(),
        is_paren(s[k]),
    ensures
        groups_dropped_from(s, i, open).len() < s.len() - i,
    decreases k - i,
{
    if i < k {
        lemma_dropped_shorter(s, i + 1, s[i] == '(' || (open && s[i] != ')'), k);
    } else {
        lemma_dropped_has_no_paren(s, i + 1, s[i] == '(');
    }
}

proof fn lemma_pass_keeps_paren_free(t: Seq<char>, i: int)
    requires
        0 <= i <= t.len(),
        forall|m: int| 0 <= m < t.len() ==> !is_paren(#[trigger] t[m]),
    ensures
        pass_from(t, i) == t.subrange(i, t.len() as int),
    decreases t.len() - i,
{
    if i < t.len() {
        lemma_pass_keeps_paren_free(t, i + 1);
        assert(seq![t[i]] + t.subrange(i + 1, t.len() as int) =~= t.subrange(i, t.len() as int));
    } else {
        assert(t.subrange(i, t.len() as int) =~= Seq::<char>::empty());
    }
}

/// On balanced, non-nested parentheses the stage removes exactly the groups,
/// parentheses included, and keeps every other character in order.
pub proof fn lemma_parens_flat(s: Seq<char>)
    requires
        flat_balanced(s),
    ensures
        parens_removed(s) == groups_dropped(s),
{
    let d = groups_dropped(s);
    lemma_pass_on_flat(s, 0);
    lemma_dropped_has_no_paren(s, 0, false);
    lemma_pass_keeps_paren_free(d, 0);
    assert(d.subrange(0, d.len() as int) =~= d);
    if d.len() < s.len() {
        assert(parens_removed(s) == parens_removed(d));
    } else {
        if exists|k: int| 0 <= k < s.len() && is_paren(s[k]) {
            let k = choose|k: int| 0 <= k < s.len() && is_paren(s[k]);
            lemma_dropped_shorter(s, 0, false, k);
        }
        lemma_pass_keeps_paren_free(s, 0);
        assert(s.subrange(0, s.len() as int) =~= s);
        assert(innermost_pass(s) == s);
        assert(groups_dropped(s) == pass_from(s, 0));
    }
}

} // verus!
