//! Anchor extraction from an HTML page body.

use vstd::prelude::*;

verus! {

/// The href attribute values of a page body's anchor elements, in document
/// order, as the outside HTML parser reports them. Named, not written out:
/// HTML parsing is a function of the body text alone.
pub uninterp spec fn hrefs_of(body: Seq<char>) -> Seq<Seq<char>>;

/// Relies on scraper's Html::parse_document, Html::select with the anchor
/// element selector, and ElementRef::attr: collects each anchor's href
/// attribute value, in document order; anchors without one are left out.
#[verifier::external_body]
pub(crate) fn extract_hrefs(body: &str) -> (r: Vec<String>)
    ensures
        r.deep_view() == hrefs_of(body@),
{
    let document = scraper::Html::parse_document(body);
    let selector = scraper::Selector::parse("a").unwrap();
    document
        .select(&selector)
        .filter_map(|element| element.value().attr("href"))
        .map(|href| href.to_string())
        .collect()
}

} // verus!
