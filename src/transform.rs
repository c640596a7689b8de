use vstd::prelude::*;
use crate::text::{is_ws, is_space, next_ws, next_non_ws, scan_to_ws, scan_past_ws, chars_of, string_of};

verus! {

/// First `$` at or after `k` that is reached before any line break, or -1.
pub open spec fn dollar_close(s: Seq<char>, k: int) -> int
    decreases s.len() - k,
{
    if k >= s.len() || k < 0 {
        -1
    } else if s[k] == '\n' {
        -1
    } else if s[k] == '$' {
        k
    } else {
        dollar_close(s, k + 1)
    }
}

/// `s[i..]` with every shortest `$ ... $` span (no line break inside) removed,
/// scanning left to right.
pub open spec fn equations_from(s: Seq<char>, i: int) -> Seq<char>
    decreases s.len() - i,
{
    if i >= s.len() || i < 0 {
        Seq::empty()
    } else {
        let j = dollar_close(s, i + 1);
        if s[i] == '$' && i < j < s.len() {
            equations_from(s, j + 1)
        } else {
            seq![s[i]] + equations_from(s, i + 1)
        }
    }
}

pub open spec fn equations_removed(s: Seq<char>) -> Seq<char> {
    equations_from(s, 0)
}

/// Removes inline math: each shortest span from a `$` to the next `$` on the same line.
pub fn strip_equations(input: &str) -> (r: String)
    ensures
        r@ == equations_removed(input@),
{
    let cs = chars_of(input);
    let n = cs.len();
    let mut out: Vec<char> = Vec::new();
    let mut i: usize = 0;
    while i < n
        invariant
            n == cs@.len(),
            i <= n,
            out@ + equations_from(cs@, i as int) == equations_removed(cs@),
        decreases n - i,
    {
        if cs[i] == '$' {
            let mut k: usize = i + 1;
            while k < n && cs[k] != '\n' && cs[k] != '$'
                invariant
                    n == cs@.len(),
                    i < k <= n,
                    dollar_close(cs@, k as int) == dollar_close(cs@, i + 1),
                decreases n - k,
            {
                k = k + 1;
            }
            if k < n && cs[k] == '$' {
                i = k + 1;
                continue;
            }
        }
        let c = cs[i];
        assert(out@.push(c) + equations_from(cs@, i + 1) =~= out@ + equations_from(cs@, i as int));
        out.push(c);
        i = i + 1;
    }
    assert(out@ + equations_from(cs@, n as int) =~= out@);
    string_of(&out)
}

/// A character that starts a command invocation.
pub open spec fn is_command_mark(c: char) -> bool {
    c == '#' || c == '@' || c == '<'
}

/// `s[i..]` with every command mark that is followed by non-whitespace removed,
/// together with the whole non-whitespace run after it.
pub open spec fn commands_from(s: Seq<char>, i: int) -> Seq<char>
    decreases s.len() - i,
{
    if i >= s.len() || i < 0 {
        Seq::empty()
    } else {
        let j = next_ws(s, i + 1);
        if is_command_mark(s[i]) && i + 1 < s.len() && !is_ws(s[i + 1]) && i < j <= s.len() {
            commands_from(s, j)
        } else {
            seq![s[i]] + commands_from(s, i + 1)
        }
    }
}

pub open spec fn commands_removed(s: Seq<char>) -> Seq<char> {
    commands_from(s, 0)
}

/// Removes command invocations: a `#`, `@` or `<` with the non-whitespace run glued after it.
pub fn strip_commands(input: &str) -> (r: String)
    ensures
        r@ == commands_removed(input@),
{
    let cs = chars_of(input);
    let n = cs.len();
    let mut out: Vec<char> = Vec::new();
    let mut i: usize = 0;
    while i < n
        invariant
            n == cs@.len(),
            i <= n,
            out@ + commands_from(cs@, i as int) == commands_removed(cs@),
        decreases n - i,
    {
        let c = cs[i];
        if (c == '#' || c == '@' || c == '<') && i + 1 < n && !is_space(cs[i + 1]) {
            i = scan_to_ws(&cs, i + 1);
        } else {
            assert(out@.push(c) + commands_from(cs@, i + 1) =~= out@ + commands_from(cs@, i as int));
            out.push(c);
            i = i + 1;
        }
    }
    assert(out@ + commands_from(cs@, n as int) =~= out@);
    string_of(&out)
}

/// A punctuation character that, with whatever is glued after it, is not prose.
pub open spec fn is_punct(c: char) -> bool {
    c == '|' || c == ',' || c == '.' || c == '\'' || c == '-' || c == ':' || c == ';' || c == '?'
        || c == '[' || c == ']' || c == '<' || c == '>' || c == '=' || c == '"'
}

fn is_punct_char(c: char) -> (r: bool)
    ensures
        r == is_punct(c),
{
    c == '|' || c == ',' || c == '.' || c == '\'' || c == '-' || c == ':' || c == ';' || c == '?'
        || c == '[' || c == ']' || c == '<' || c == '>' || c == '=' || c == '"'
}

/// `s[i..]` with every punctuation character removed, together with the
/// non-whitespace run glued after it.
pub open spec fn fragments_from(s: Seq<char>, i: int) -> Seq<char>
    decreases s.len() - i,
{
    if i >= s.len() || i < 0 {
        Seq::empty()
    } else {
        let j = next_ws(s, i + 1);
        if is_punct(s[i]) && i < j <= s.len() {
            fragments_from(s, j)
        } else {
            seq![s[i]] + fragments_from(s, i + 1)
        }
    }
}

pub open spec fn fragments_removed(s: Seq<char>) -> Seq<char> {
    fragments_from(s, 0)
}

/// Removes each punctuation character and the non-whitespace run glued after it.
pub fn strip_punctuation_fragments(input: &str) -> (r: String)
    ensures
        r@ == fragments_removed(input@),
{
    let cs = chars_of(input);
    let n = cs.len();
    let mut out: Vec<char> = Vec::new();
    let mut i: usize = 0;
    while i < n
        invariant
            n == cs@.len(),
            i <= n,
            out@ + fragments_from(cs@, i as int) == fragments_removed(cs@),
        decreases n - i,
    {
        let c = cs[i];
        if is_punct_char(c) {
            i = scan_to_ws(&cs, i + 1);
        } else {
            assert(out@.push(c) + fragments_from(cs@, i + 1) =~= out@ + fragments_from(cs@, i as int));
            out.push(c);
            i = i + 1;
        }
    }
    assert(out@ + fragments_from(cs@, n as int) =~= out@);
    string_of(&out)
}

/// `s[i..]` with every run of whitespace replaced by one space.
pub open spec fn collapsed_from(s: Seq<char>, i: int) -> Seq<char>
    decreases s.len() - i,
{
    if i >= s.len() || i < 0 {
        Seq::empty()
    } else {
        let j = next_non_ws(s, i + 1);
        if is_ws(s[i]) && i < j <= s.len() {
            seq![' '] + collapsed_from(s, j)
        } else {
            seq![s[i]] + collapsed_from(s, i + 1)
        }
    }
}

pub open spec fn collapsed(s: Seq<char>) -> Seq<char> {
    collapsed_from(s, 0)
}

/// Replaces every run of whitespace by a single space.
pub fn collapse_whitespace(input: &str) -> (r: String)
    ensures
        r@ == collapsed(input@),
{
    let cs = chars_of(input);
    let n = cs.len();
    let mut out: Vec<char> = Vec::new();
    let mut i: usize = 0;
    while i < n
        invariant
            n == cs@.len(),
            i <= n,
            out@ + collapsed_from(cs@, i as int) == collapsed(cs@),
        decreases n - i,
    {
        let c = cs[i];
        if is_space(c) {
            let j = scan_past_ws(&cs, i + 1);
            assert(out@.push(' ') + collapsed_from(cs@, j as int) =~= out@ + collapsed_from(cs@, i as int));
            out.push(' ');
            i = j;
        } else {
            assert(out@.push(c) + collapsed_from(cs@, i + 1) =~= out@ + collapsed_from(cs@, i as int));
            out.push(c);
            i = i + 1;
        }
    }
    assert(out@ + collapsed_from(cs@, n as int) =~= out@);
    string_of(&out)
}

/// Whether the character is not whitespace.
pub open spec fn non_ws_pred() -> spec_fn(char) -> bool {
    |c: char| !is_ws(c)
}

/// The non-whitespace characters of `s`, in order.
pub open spec fn non_ws(s: Seq<char>) -> Seq<char> {
    s.filter(non_ws_pred())
}

/// No two neighbouring characters are both whitespace.
pub open spec fn no_adjacent_ws(s: Seq<char>) -> bool {
    forall|k: int| 0 <= k < s.len() - 1 ==> !(is_ws(#[trigger] s[k]) && is_ws(s[k + 1]))
}

proof fn lemma_next_non_ws(s: Seq<char>, k: int)
    requires
        0 <= k <= s.len(),
    ensures
        k <= next_non_ws(s, k) <= s.len(),
        next_non_ws(s, k) < s.len() ==> !is_ws(s[next_non_ws(s, k)]),
        forall|m: int| k <= m < next_non_ws(s, k) ==> is_ws(#[trigger] s[m]),
    decreases s.len() - k,
{
    if k < s.len() && is_ws(s[k]) {
        lemma_next_non_ws(s, k + 1);
    }
}

proof fn lemma_collapsed_shape(s: Seq<char>, i: int)
    requires
        0 <= i <= s.len(),
    ensures
        no_adjacent_ws(collapsed_from(s, i)),
        i < s.len() && !is_ws(s[i]) ==> collapsed_from(s, i).len() > 0 && collapsed_from(s, i)[0] == s[i],
    decreases s.len() - i,
{
    if i < s.len() {
        let j = next_non_ws(s, i + 1);
        lemma_next_non_ws(s, i + 1);
        let r = collapsed_from(s, i);
        if is_ws(s[i]) {
            lemma_collapsed_shape(s, j);
            let rest = collapsed_from(s, j);
            assert(r == seq![' '] + rest);
            assert forall|k: int| 0 <= k < r.len() - 1 implies !(is_ws(#[trigger] r[k]) && is_ws(r[k + 1])) by {
                if k > 0 {
                    assert(r[k] == rest[k - 1] && r[k + 1] == rest[k]);
                } else {
                    assert(r[1] == rest[0]);
                }
            }
        } else {
            lemma_collapsed_shape(s, i + 1);
            let rest = collapsed_from(s, i + 1);
            assert(r == seq![s[i]] + rest);
            assert forall|k: int| 0 <= k < r.len() - 1 implies !(is_ws(#[trigger] r[k]) && is_ws(r[k + 1])) by {
                if k > 0 {
                    assert(r[k] == rest[k - 1] && r[k + 1] == rest[k]);
                }
            }
        }
    }
}

proof fn lemma_all_ws_filtered(t: Seq<char>)
    requires
        forall|m: int| 0 <= m < t.len() ==> is_ws(#[trigger] t[m]),
    ensures
        non_ws(t) == Seq::<char>::empty(),
    decreases t.len(),
{
    reveal_with_fuel(Seq::filter, 1);
    if t.len() > 0 {
        let p = t.drop_last();
        assert forall|m: int| 0 <= m < p.len() implies is_ws(#[trigger] p[m]) by {
            assert(p[m] == t[m]);
        }
        lemma_all_ws_filtered(p);
    } else {
        assert(non_ws(t) =~= Seq::<char>::empty());
    }
}

proof fn lemma_collapsed_keeps(s: Seq<char>, i: int)
    requires
        0 <= i <= s.len(),
    ensures
        non_ws(collapsed_from(s, i)) == non_ws(s.subrange(i, s.len() as int)),
    decreases s.len() - i,
{
    let tail = s.subrange(i, s.len() as int);
    if i == s.len() {
        assert(tail =~= Seq::<char>::empty());
        assert(collapsed_from(s, i) =~= Seq::<char>::empty());
    } else {
        let j = next_non_ws(s, i + 1);
        lemma_next_non_ws(s, i + 1);
        if is_ws(s[i]) {
            lemma_collapsed_keeps(s, j);
            let head = s.subrange(i, j);
            assert(tail =~= head + s.subrange(j, s.len() as int));
            Seq::filter_distributes_over_add(head, s.subrange(j, s.len() as int), non_ws_pred());
            lemma_all_ws_filtered(head);
            lemma_all_ws_filtered(seq![' ']);
            Seq::filter_distributes_over_add(seq![' '], collapsed_from(s, j), non_ws_pred());
            assert(non_ws(head) + non_ws(s.subrange(j, s.len() as int)) =~= non_ws(s.subrange(j, s.len() as int)));
            assert(non_ws(seq![' ']) + non_ws(collapsed_from(s, j)) =~= non_ws(collapsed_from(s, j)));
        } else {
            lemma_collapsed_keeps(s, i + 1);
            assert(tail =~= seq![s[i]] + s.subrange(i + 1, s.len() as int));
            Seq::filter_distributes_over_add(seq![s[i]], s.subrange(i + 1, s.len() as int), non_ws_pred());
            Seq::filter_distributes_over_add(seq![s[i]], collapsed_from(s, i + 1), non_ws_pred());
        }
    }
}

/// After collapsing, no two neighbouring characters are whitespace, and the
/// non-whitespace characters are those of the input, in the same order.
pub proof fn lemma_collapse_whitespace(s: Seq<char>)
    ensures
        no_adjacent_ws(collapsed(s)),
        non_ws(collapsed(s)) == non_ws(s),
{
    lemma_collapsed_shape(s, 0);
    lemma_collapsed_keeps(s, 0);
    assert(s.subrange(0, s.len() as int) =~= s);
}

} // verus!
