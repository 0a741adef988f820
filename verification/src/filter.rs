//! The relevance filter: does an item's title hold one of the keywords.

use vstd::prelude::*;
use crate::domain_types::texts;
use crate::feed::FeedItem;
use crate::text::{contains, has_substring, lowercase_chars, lowercased};

verus! {

/// The lowercase equivalents of a sequence of texts, in order.
pub open spec fn all_lowercased(words: Seq<Seq<char>>) -> Seq<Seq<char>> {
    Seq::new(words.len(), |k: int| lowercased(words[k]))
}

/// A title passes a list of terms, both taken as they stand: the list is
/// empty, or one of its terms stands in the title. Terms are compared as
/// substrings, not as words.
pub open spec fn passes(terms: Seq<Seq<char>>, title: Seq<char>) -> bool {
    terms.len() == 0 || exists|k: int|
        0 <= k < terms.len() && has_substring(title, #[trigger] terms[k])
}

/// A title passes a whitelist: the whitelist is empty, or one of its terms
/// stands in the title, both compared by their lowercase equivalents.
pub open spec fn title_matches(whitelist: Seq<Seq<char>>, title: Seq<char>) -> bool {
    passes(all_lowercased(whitelist), lowercased(title))
}

/// The characters of each text of a sequence.
pub open spec fn rows(terms: Seq<Vec<char>>) -> Seq<Seq<char>> {
    Seq::new(terms.len(), |k: int| terms[k]@)
}

/// Tells whether a title passes a list of terms, both taken as they
/// stand.
pub fn passes_terms(terms: &Vec<Vec<char>>, title: &Vec<char>) -> (r: bool)
    ensures
        r == passes(rows(terms@), title@),
{
    if terms.len() == 0 {
        return true;
    }
    let mut k: usize = 0;
    while k < terms.len()
        invariant
            k <= terms.len(),
            forall|j: int| 0 <= j < k ==> !has_substring(title@, #[trigger] rows(terms@)[j]),
        decreases terms.len() - k,
    {
        if contains(title, &terms[k]) {
            assert(has_substring(title@, rows(terms@)[k as int]));
            return true;
        }
        k = k + 1;
    }
    false
}

/// Tells whether an item passes a whitelist.
pub fn matches(whitelist: &Vec<String>, item: &FeedItem) -> (r: bool)
    ensures
        r == title_matches(texts(whitelist@), item.title@),
{
    let mut terms: Vec<Vec<char>> = Vec::new();
    let mut k: usize = 0;
    while k < whitelist.len()
        invariant
            k <= whitelist.len(),
            terms.len() == k,
            forall|j: int| 0 <= j < k ==> terms@[j]@ == lowercased(whitelist@[j]@),
        decreases whitelist.len() - k,
    {
        terms.push(lowercase_chars(whitelist[k].as_str()));
        k = k + 1;
    }
    assert(rows(terms@) =~= all_lowercased(texts(whitelist@)));
    let title = lowercase_chars(item.title.as_str());
    passes_terms(&terms, &title)
}

/// An empty whitelist lets every title pass.
pub proof fn lemma_empty_whitelist_matches(title: Seq<char>)
    ensures
        title_matches(Seq::empty(), title),
{
}

} // verus!
