use vstd::prelude::*;
use crate::text::{lower_of, lowercase, chars_of, string_of};
use crate::parens::{parens_removed, strip_parenthesized};
use crate::transform::{
    equations_removed, commands_removed, fragments_removed, collapsed, strip_equations,
    strip_commands, strip_punctuation_fragments, collapse_whitespace,
};

verus! {

/// The character sequences of a list of strings.
pub open spec fn views(v: Seq<String>) -> Seq<Seq<char>> {
    v.map_values(|s: String| s@)
}

/// The pieces joined with `sep` between neighbours.
pub open spec fn joined_with(ls: Seq<Seq<char>>, sep: Seq<char>) -> Seq<char>
    decreases ls.len(),
{
    if ls.len() == 0 {
        Seq::empty()
    } else if ls.len() == 1 {
        ls[0]
    } else {
        joined_with(ls.drop_last(), sep) + sep + ls.last()
    }
}

/// The lines joined with one space between neighbours.
pub open spec fn joined(ls: Seq<Seq<char>>) -> Seq<char> {
    joined_with(ls, seq![' '])
}

/// Joins the lines of a document with single spaces.
pub fn join_lines(lines: &Vec<String>) -> (r: String)
    ensures
        r@ == joined(views(lines@)),
{
    let mut out: Vec<char> = Vec::new();
    let mut i: usize = 0;
    while i < lines.len()
        invariant
            i <= lines@.len(),
            out@ == joined(views(lines@).take(i as int)),
        decreases lines@.len() - i,
    {
        let mut cs = chars_of(lines[i].as_str());
        let ghost before = out@;
        if i > 0 {
            out.push(' ');
        }
        out.append(&mut cs);
        proof {
            let t = views(lines@).take(i + 1);
            assert(t.drop_last() =~= views(lines@).take(i as int));
            assert(t.last() == lines@[i as int]@);
            if i == 0 {
                assert(out@ =~= t[0]);
            } else {
                assert(out@ =~= before + seq![' '] + t.last());
            }
        }
        i = i + 1;
    }
    assert(views(lines@).take(lines@.len() as int) =~= views(lines@));
    string_of(&out)
}

/// Strips punctuation-glued fragments and lowercases what is left.
pub fn strip_trailing_punctuation_fragments(input: &str) -> (r: String)
    ensures
        r@ == lower_of(fragments_removed(input@)),
{
    let s = strip_punctuation_fragments(input);
    lowercase(s.as_str())
}

/// The normalized text of a document: lines joined, then the stages in their
/// fixed order: parentheses, equations, parentheses again, commands,
/// punctuation fragments with lowercasing, whitespace.
pub open spec fn normalized(ls: Seq<Seq<char>>) -> Seq<char> {
    collapsed(
        lower_of(
            fragments_removed(
                commands_removed(parens_removed(equations_removed(parens_removed(joined(ls))))),
            ),
        ),
    )
}

/// Runs the whole sanitization sequence on a document.
pub fn normalize(lines: &Vec<String>) -> (r: String)
    ensures
        r@ == normalized(views(lines@)),
{
    let doc = join_lines(lines);
    let s = strip_parenthesized(doc.as_str());
    let s = strip_equations(s.as_str());
    let s = strip_parenthesized(s.as_str());
    let s = strip_commands(s.as_str());
    let s = strip_trailing_punctuation_fragments(s.as_str());
    collapse_whitespace(s.as_str())
}

/// The words of `s[i..]` split on single spaces, with `cur` the word being
/// read at `i`; empty words are dropped.
pub open spec fn words_from(s: Seq<char>, i: int, cur: Seq<char>) -> Seq<Seq<char>>
    decreases s.len() - i,
{
    if i >= s.len() || i < 0 {
        if cur.len() > 0 { seq![cur] } else { Seq::empty() }
    } else if s[i] == ' ' {
        (if cur.len() > 0 { seq![cur] } else { Seq::empty() }) + words_from(s, i + 1, Seq::empty())
    } else {
        words_from(s, i + 1, cur.push(s[i]))
    }
}

/// The non-empty pieces of `s` between single spaces, in order.
pub open spec fn tokens_of(s: Seq<char>) -> Seq<Seq<char>> {
    words_from(s, 0, Seq::empty())
}

/// Splits normalized text into tokens on single spaces, dropping empty pieces.
pub fn tokenize(text: &str) -> (r: Vec<String>)
    ensures
        views(r@) == tokens_of(text@),
{
    let cs = chars_of(text);
    let n = cs.len();
    let mut out: Vec<String> = Vec::new();
    let mut cur: Vec<char> = Vec::new();
    let mut i: usize = 0;
    while i < n
        invariant
            n == cs@.len(),
            i <= n,
            views(out@) + words_from(cs@, i as int, cur@) == tokens_of(cs@),
        decreases n - i,
    {
        if cs[i] == ' ' {
            if cur.len() > 0 {
                let w = string_of(&cur);
                assert(views(out@.push(w)) =~= views(out@).push(cur@));
                assert(views(out@).push(cur@) + words_from(cs@, i + 1, Seq::empty()) =~= views(out@)
                    + (seq![cur@] + words_from(cs@, i + 1, Seq::empty())));
                out.push(w);
            } else {
                assert(Seq::<Seq<char>>::empty() + words_from(cs@, i + 1, Seq::empty())
                    =~= words_from(cs@, i + 1, Seq::empty()));
            }
            cur = Vec::new();
        } else {
            cur.push(cs[i]);
        }
        i = i + 1;
    }
    if cur.len() > 0 {
        let w = string_of(&cur);
        assert(views(out@.push(w)) =~= views(out@) + seq![cur@]);
        out.push(w);
    } else {
        assert(views(out@) + Seq::<Seq<char>>::empty() =~= views(out@));
    }
    out
}

} // verus!
