use vstd::prelude::*;
use vstd::hash_set::StringHashSet;
use crate::text::{lower_of, lowercase};
use crate::pipeline::views;

verus! {

/// A set of known words, held in lowercase.
pub struct Dictionary {
    words: StringHashSet,
}

impl View for Dictionary {
    type V = Set<Seq<char>>;

    closed spec fn view(&self) -> Set<Seq<char>> {
        self.words@
    }
}

/// The lowercase forms of the entries of a word list.
pub open spec fn lowered_set(ws: Seq<Seq<char>>) -> Set<Seq<char>> {
    Set::new(|x: Seq<char>| exists|j: int| 0 <= j < ws.len() && x == lower_of(#[trigger] ws[j]))
}

/// Whether the dictionary knows `t`, compared case-insensitively.
pub open spec fn known(d: Set<Seq<char>>, t: Seq<char>) -> bool {
    d.contains(lower_of(t))
}

impl Dictionary {
    /// Builds the dictionary from a word list, one word per entry, lowercased
    /// and without duplicates.
    pub fn new(entries: &Vec<String>) -> (r: Dictionary)
        ensures
            r@ == lowered_set(views(entries@)),
    {
        let mut words = StringHashSet::new();
        let mut i: usize = 0;
        while i < entries.len()
            invariant
                i <= entries@.len(),
                words@ == lowered_set(views(entries@).take(i as int)),
            decreases entries@.len() - i,
        {
            let w = lowercase(entries[i].as_str());
            words.insert(w);
            proof {
                let next = views(entries@).take(i + 1);
                let prev = views(entries@).take(i as int);
                assert(next[i as int] == entries@[i as int]@);
                assert forall|x: Seq<char>| lowered_set(next).contains(x) implies words@.contains(x) by {
                    let j = choose|j: int| 0 <= j < next.len() && x == lower_of(#[trigger] next[j]);
                    if j < i {
                        assert(prev[j] == next[j]);
                    }
                }
                assert forall|x: Seq<char>| words@.contains(x) implies lowered_set(next).contains(x) by {
                    if x != lower_of(next[i as int]) {
                        let j = choose|j: int| 0 <= j < prev.len() && x == lower_of(#[trigger] prev[j]);
                        assert(prev[j] == next[j]);
                    }
                }
                assert(words@ =~= lowered_set(next));
            }
            i = i + 1;
        }
        assert(views(entries@).take(entries@.len() as int) =~= views(entries@));
        Dictionary { words }
    }

    /// Whether the word is known, compared case-insensitively.
    pub fn check(&self, word: &String) -> (r: bool)
        ensures
            r == known(self@, word@),
            r == self@.contains(lower_of(word@)),
    {
        let w = lowercase(word.as_str());
        self.words.contains(w.as_str())
    }
}

/// The tokens that the dictionary does not know, in order, repeats kept.
pub open spec fn unknown_of(ts: Seq<Seq<char>>, d: Set<Seq<char>>) -> Seq<Seq<char>> {
    ts.filter(|t: Seq<char>| !known(d, t))
}

/// Keeps the tokens that the dictionary does not know, in input order and
/// with every repeat.
pub fn find_unknown(tokens: &Vec<String>, dict: &Dictionary) -> (r: Vec<String>)
    ensures
        views(r@) == unknown_of(views(tokens@), dict@),
{
    let mut out: Vec<String> = Vec::new();
    let mut i: usize = 0;
    while i < tokens.len()
        invariant
            i <= tokens@.len(),
            views(out@) == unknown_of(views(tokens@).take(i as int), dict@),
        decreases tokens@.len() - i,
    {
        let t = &tokens[i];
        let k = dict.check(t);
        proof {
            let next = views(tokens@).take(i + 1);
            assert(next.drop_last() =~= views(tokens@).take(i as int));
            assert(next.last() == t@);
            reveal_with_fuel(Seq::filter, 1);
        }
        if !k {
            let c = t.clone();
            assert(views(out@.push(c)) =~= views(out@).push(t@));
            out.push(c);
        }
        i = i + 1;
    }
    assert(views(tokens@).take(tokens@.len() as int) =~= views(tokens@));
    out
}

} // verus!
