use vstd::prelude::*;

use crate::model::FeedError;

verus! {

/// The inner markup of the first paragraph element of an HTML fragment, in
/// document order, or `None` when the fragment holds no paragraph element.
/// The result depends on the fragment text alone.
pub uninterp spec fn first_paragraph_of(content: Seq<char>) -> Option<Seq<char>>;

/// The inner markup of the first `span` element carrying an `itemprop=name`
/// attribute of an HTML document, in document order, or `None` when the
/// document holds no such element. The result depends on the document text
/// alone.
pub uninterp spec fn name_span_of(page: Seq<char>) -> Option<Seq<char>>;

/// Relies on scraper's `Html::parse_fragment`, `Html::select` with the
/// selector `p`, and `ElementRef::inner_html`: parsing is lossy but total
/// (malformed HTML degrades to "no match", never an error), `select` walks
/// the parsed tree in document order, and `inner_html` serializes the
/// element's children. All of it computes from `content` alone.
#[verifier::external_body]
fn select_first_paragraph(content: &str) -> (r: Option<String>)
    ensures
        match r {
            Some(s) => first_paragraph_of(content@) == Some(s@),
            None => first_paragraph_of(content@) is None,
        },
{
    let html = scraper::Html::parse_fragment(content);
    let selector = scraper::Selector::parse("p").unwrap();
    let first = html.select(&selector).next();
    match first {
        Some(element) => Some(element.inner_html()),
        None => None,
    }
}

/// Relies on scraper's `Html::parse_document`, `Html::select` with the
/// selector `span[itemprop=name]`, and `ElementRef::inner_html`: parsing is
/// total, `select` walks the parsed tree in document order, and `inner_html`
/// serializes the element's children. All of it computes from `page` alone.
#[verifier::external_body]
fn select_name_span(page: &str) -> (r: Option<String>)
    ensures
        match r {
            Some(s) => name_span_of(page@) == Some(s@),
            None => name_span_of(page@) is None,
        },
{
    let html = scraper::Html::parse_document(page);
    let selector = scraper::Selector::parse("span[itemprop=name]").unwrap();
    let first = html.select(&selector).next();
    match first {
        Some(element) => Some(element.inner_html()),
        None => None,
    }
}

/// The summary of a post: the first paragraph of its content, when there is one.
pub fn first_paragraph(content: &str) -> (r: Option<String>)
    ensures
        match r {
            Some(s) => first_paragraph_of(content@) == Some(s@),
            None => first_paragraph_of(content@) is None,
        },
{
    select_first_paragraph(content)
}

/// The display name on a profile page: the first `span` element with an
/// `itemprop=name` attribute. Fails with `NotFound` exactly when the page
/// holds no such element.
pub fn get_kemono_name(page: &str) -> (r: Result<String, FeedError>)
    ensures
        match r {
            Ok(s) => name_span_of(page@) == Some(s@),
            Err(e) => name_span_of(page@) is None && e == FeedError::NotFound,
        },
{
    match select_name_span(page) {
        Some(name) => Ok(name),
        None => Err(FeedError::NotFound),
    }
}

} // verus!
