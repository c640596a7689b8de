use vstd::prelude::*;
use crate::dictionary::{Dictionary, find_unknown, unknown_of};
use crate::pipeline::{views, normalize, normalized, tokenize, tokens_of};

verus! {

/// What a check of a document found.
pub struct Findings {
    /// Number of tokens checked, repeats included.
    pub word_count: usize,
    /// The tokens the dictionary does not know, in order, repeats kept.
    pub unknown: Vec<String>,
}

/// Normalizes and tokenizes the document and keeps the tokens that the
/// dictionary does not know.
pub fn spell_check(lines: &Vec<String>, dict: &Dictionary) -> (r: Findings)
    ensures
        r.word_count == tokens_of(normalized(views(lines@))).len(),
        views(r.unknown@) == unknown_of(tokens_of(normalized(views(lines@))), dict@),
{
    let text = normalize(lines);
    let tokens = tokenize(text.as_str());
    proof {
        assert(views(tokens@).len() == tokens@.len());
    }
    let unknown = find_unknown(&tokens, dict);
    Findings { word_count: tokens.len(), unknown }
}

} // verus!
