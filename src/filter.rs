//! Case-insensitive search over item titles and values.

use vstd::prelude::*;
use crate::item::{Item, ItemView};
use crate::paths::{lower_of, lowercase};
use crate::text::{chars_of, contains, contains_chars, is_subsequence, same_text, subsequence_chars};

verus! {

/// Whether an already lower-cased query matches an already lower-cased title
/// or value: equal to it, inside it, or spread over it in order.
pub open spec fn folded_match(query: Seq<char>, title: Seq<char>, value: Seq<char>) -> bool {
    title == query || value == query || contains(title, query) || contains(value, query)
        || is_subsequence(title, query) || is_subsequence(value, query)
}

/// Whether an item is shown for a query: always for the empty query,
/// otherwise when the lower-cased query matches the lower-cased title or value.
pub open spec fn shown_for(query: Seq<char>, item: ItemView) -> bool {
    query.len() == 0 || folded_match(lower_of(query), lower_of(item.title), lower_of(item.value))
}

/// Matches lower-cased text; see [`folded_match`].
pub fn matches_folded(query: &str, title: &str, value: &str) -> (r: bool)
    ensures
        r == folded_match(query@, title@, value@),
{
    let q = chars_of(query);
    let t = chars_of(title);
    let v = chars_of(value);
    same_text(title, query) || same_text(value, query) || contains_chars(&t, &q)
        || contains_chars(&v, &q) || subsequence_chars(&t, &q) || subsequence_chars(&v, &q)
}

/// The search state: the query typed so far.
pub struct Filter {
    query: String,
}

impl Filter {
    /// The current query.
    pub closed spec fn query(&self) -> Seq<char> {
        self.query@
    }

    pub fn new() -> (r: Self)
        ensures
            r.query() == Seq::<char>::empty(),
    {
        Filter { query: String::new() }
    }

    pub fn set_query(&mut self, query: String)
        ensures
            final(self).query() == query@,
    {
        self.query = query;
    }

    /// Whether `item` is shown under the current query.
    pub fn should_show(&self, item: &Item) -> (r: bool)
        ensures
            r == shown_for(self.query(), item@),
    {
        if chars_of(self.query.as_str()).len() == 0 {
            return true;
        }
        let q = lowercase(self.query.as_str());
        let t = lowercase(item.title.as_str());
        let v = lowercase(item.value.as_str());
        matches_folded(q.as_str(), t.as_str(), v.as_str())
    }
}

/// Subsequence matching.
pub struct FuzzyMatcher;

impl FuzzyMatcher {
    /// Whether the characters of `pattern` occur in `text` in order.
    pub fn match_text(text: &str, pattern: &str) -> (r: bool)
        ensures
            r == is_subsequence(text@, pattern@),
    {
        let t = chars_of(text);
        let p = chars_of(pattern);
        subsequence_chars(&t, &p)
    }

    /// Whether `pattern` matches the item's title or value, ignoring case.
    pub fn match_item(item: &Item, pattern: &str) -> (r: bool)
        ensures
            r == (is_subsequence(lower_of(item.title@), lower_of(pattern@)) || is_subsequence(
                lower_of(item.value@),
                lower_of(pattern@),
            )),
    {
        let p = lowercase(pattern);
        let t = lowercase(item.title.as_str());
        let v = lowercase(item.value.as_str());
        Self::match_text(t.as_str(), p.as_str()) || Self::match_text(v.as_str(), p.as_str())
    }
}

} // verus!
