//! The match predicate: does a term occur in a document.

use vstd::prelude::*;

verus! {

/// `needle` occurs as a contiguous part of `hay`.
pub open spec fn contains_text(hay: Seq<char>, needle: Seq<char>) -> bool {
    exists|i: int|
        0 <= i && i + needle.len() <= hay.len() && #[trigger] hay.subrange(i, i + needle.len()) == needle
}

/// What `str::to_lowercase` returns for a string with these characters.
pub uninterp spec fn lower_of(s: Seq<char>) -> Seq<char>;

/// Relies on `str::to_lowercase`: the lowercase form, a function of the
/// characters alone.
#[verifier::external_body]
fn lowercase(s: &str) -> (r: String)
    ensures
        r@ == lower_of(s@),
{
    s.to_lowercase()
}

/// Relies on `str::contains` with a string pattern: whether the pattern
/// occurs as a substring.
#[verifier::external_body]
fn contains(hay: &str, needle: &str) -> (r: bool)
    ensures
        r == contains_text(hay@, needle@),
{
    hay.contains(needle)
}

/// Whether `term` matches a document, with both case-folded when
/// `case_insensitive` holds.
pub open spec fn matches_term(term: Seq<char>, contents: Seq<char>, case_insensitive: bool) -> bool {
    if case_insensitive {
        contains_text(lower_of(contents), lower_of(term))
    } else {
        contains_text(contents, term)
    }
}

/// Substring search of `query` in `contents`.
pub fn search(query: &str, contents: &str, case_insensitive: bool) -> (r: bool)
    ensures
        r == matches_term(query@, contents@, case_insensitive),
{
    if case_insensitive {
        let folded_contents = lowercase(contents);
        let folded_query = lowercase(query);
        return contains(folded_contents.as_str(), folded_query.as_str());
    }
    contains(contents, query)
}

/// Page numbers, counted from one, of the page texts that contain `query`.
pub open spec fn matching_pages(pages: Seq<Seq<char>>, query: Seq<char>) -> Seq<u32>
    decreases pages.len(),
{
    if pages.len() == 0 {
        seq![]
    } else if contains_text(pages.last(), query) {
        matching_pages(pages.drop_last(), query).push(pages.len() as u32)
    } else {
        matching_pages(pages.drop_last(), query)
    }
}

pub open spec fn page_texts(pages: Seq<String>) -> Seq<Seq<char>> {
    pages.map_values(|p: String| p@)
}

/// The pages, in order, whose text contains `query`.
pub fn pages_containing(query: &str, pages: &Vec<String>) -> (r: Vec<u32>)
    requires
        pages@.len() < u32::MAX,
    ensures
        r@ == matching_pages(page_texts(pages@), query@),
{
    let mut results: Vec<u32> = Vec::new();
    let mut i: usize = 0;
    while i < pages.len()
        invariant
            i <= pages@.len() < u32::MAX,
            results@ == matching_pages(page_texts(pages@.subrange(0, i as int)), query@),
        decreases pages@.len() - i,
    {
        let ghost before = page_texts(pages@.subrange(0, i as int));
        let page_number = (i + 1) as u32;
        if contains(pages[i].as_str(), query) {
            results.push(page_number);
        }
        i = i + 1;
        assert(page_texts(pages@.subrange(0, i as int)).drop_last() =~= before);
    }
    assert(pages@.subrange(0, pages@.len() as int) =~= pages@);
    results
}

} // verus!
