//! What the engine reads from an HTML document: the elements that a CSS
//! selector matches, by their text or by one attribute.

use vstd::prelude::*;
use vstd::string::StringSliceAdditionalSpecFns;
use vstd::utf8::encode_utf8;

verus! {

/// The largest document that is parsed, in bytes. The parser keeps lengths
/// in 32 bits and lets a buffer grow to the next power of two, and what it
/// builds from one byte of input may take three; this limit leaves that
/// margin on every machine.
pub const MAX_DOCUMENT_BYTES: usize = 0x2000_0000;

/// Whether a document is small enough to be parsed.
pub open spec fn readable(document: Seq<char>) -> bool {
    encode_utf8(document).len() <= MAX_DOCUMENT_BYTES
}

/// The text of each element of `document` that `selector` matches, in the
/// order in which a selection walks the parsed document; `None` where
/// `selector` is no CSS selector.
pub uninterp spec fn selected_text(document: Seq<char>, selector: Seq<char>) -> Option<
    Seq<Seq<char>>,
>;

/// The value of attribute `name` of each element of `document` that
/// `selector` matches, `None` where the element has no such attribute, in
/// the order in which a selection walks the parsed document; `None` as a
/// whole where `selector` is no CSS selector.
pub uninterp spec fn selected_attr(
    document: Seq<char>,
    selector: Seq<char>,
    name: Seq<char>,
) -> Option<Seq<Option<Seq<char>>>>;

/// The character sequences of a list of texts that may be absent.
pub open spec fn text_list(list: Option<Vec<String>>) -> Option<Seq<Seq<char>>> {
    match list {
        Some(items) => Some(items@.map_values(|s: String| s@)),
        None => None,
    }
}

/// The character sequence of a text that may be absent.
pub open spec fn maybe_text(value: Option<String>) -> Option<Seq<char>> {
    match value {
        Some(s) => Some(s@),
        None => None,
    }
}

/// The character sequences of a list of values that may be absent, each of
/// which may be absent.
pub open spec fn value_list(list: Option<Vec<Option<String>>>) -> Option<Seq<Option<Seq<char>>>> {
    match list {
        Some(items) => Some(items@.map_values(|v: Option<String>| maybe_text(v))),
        None => None,
    }
}

/// `scraper`: parses `selector` with `Selector::parse` and `document` with
/// `Html::parse_document`, selects with `Html::select` and joins the text
/// nodes below each match (`ElementRef::text`). Nothing is claimed beyond
/// the result being a function of the two strings. Larger documents are
/// left out: the parser panics where a length no longer fits in 32 bits.
#[verifier::external_body]
pub(crate) fn select_text(document: &str, selector: &str) -> (found: Option<Vec<String>>)
    requires
        document.spec_bytes().len() <= MAX_DOCUMENT_BYTES,
    ensures
        text_list(found) == selected_text(document@, selector@),
{
    let selector = scraper::Selector::parse(selector).ok()?;
    let html = scraper::Html::parse_document(document);
    Some(html.select(&selector).map(|element| element.text().collect::<String>()).collect())
}

/// `scraper`: parses `selector` with `Selector::parse` and `document` with
/// `Html::parse_document`, selects with `Html::select` and reads attribute
/// `name` of each match (`Element::attr`). Nothing is claimed beyond the
/// result being a function of the three strings. Larger documents are left
/// out: the parser panics where a length no longer fits in 32 bits.
#[verifier::external_body]
pub(crate) fn select_attr(document: &str, selector: &str, name: &str) -> (found: Option<
    Vec<Option<String>>,
>)
    requires
        document.spec_bytes().len() <= MAX_DOCUMENT_BYTES,
    ensures
        value_list(found) == selected_attr(document@, selector@, name@),
{
    let selector = scraper::Selector::parse(selector).ok()?;
    let html = scraper::Html::parse_document(document);
    Some(html.select(&selector).map(|element| element.value().attr(name).map(String::from)).collect())
}

/// The text of each element of `document` that `selector` matches; nothing
/// where the document is too large to be parsed or `selector` is no CSS
/// selector.
pub open spec fn found_text(document: Seq<char>, selector: Seq<char>) -> Option<Seq<Seq<char>>> {
    if readable(document) {
        selected_text(document, selector)
    } else {
        None
    }
}

/// The value of attribute `name` of each element of `document` that
/// `selector` matches; nothing where the document is too large to be parsed
/// or `selector` is no CSS selector.
pub open spec fn found_attr(document: Seq<char>, selector: Seq<char>, name: Seq<char>) -> Option<
    Seq<Option<Seq<char>>>,
> {
    if readable(document) {
        selected_attr(document, selector, name)
    } else {
        None
    }
}

/// The text of each element of `document` that `selector` matches. A
/// document of more than `MAX_DOCUMENT_BYTES` bytes is not parsed.
pub fn find_text(document: &str, selector: &str) -> (found: Option<Vec<String>>)
    ensures
        text_list(found) == found_text(document@, selector@),
{
    if document.as_bytes().len() <= MAX_DOCUMENT_BYTES {
        select_text(document, selector)
    } else {
        None
    }
}

/// The value of attribute `name` of each element of `document` that
/// `selector` matches. A document of more than `MAX_DOCUMENT_BYTES` bytes is
/// not parsed.
pub fn find_attr(document: &str, selector: &str, name: &str) -> (found: Option<
    Vec<Option<String>>,
>)
    ensures
        value_list(found) == found_attr(document@, selector@, name@),
{
    if document.as_bytes().len() <= MAX_DOCUMENT_BYTES {
        select_attr(document, selector, name)
    } else {
        None
    }
}

} // verus!
