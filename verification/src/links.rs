//! Absolute URLs among the links of a page.

use crate::html::maybe_text;
use crate::text::same_text;
use crate::text::texts;
use vstd::prelude::*;

verus! {

/// What the engine reads of a parsed absolute URL.
pub struct AbsoluteUrl {
    /// The scheme, without the colon.
    pub scheme: String,
    /// The URL as a whole, in its normal form.
    pub text: String,
}

impl View for AbsoluteUrl {
    type V = (Seq<char>, Seq<char>);

    open spec fn view(&self) -> (Seq<char>, Seq<char>) {
        (self.scheme@, self.text@)
    }
}

/// The scheme and the normal form of `input` read as an absolute URL; `None`
/// where it is none.
pub uninterp spec fn parsed_url(input: Seq<char>) -> Option<(Seq<char>, Seq<char>)>;

/// The view of a URL that may be absent.
pub open spec fn maybe_url(parsed: Option<AbsoluteUrl>) -> Option<(Seq<char>, Seq<char>)> {
    match parsed {
        Some(url) => Some(url@),
        None => None,
    }
}

/// `url`: `Url::parse`, and of a URL that parsed its `scheme` and its
/// serialization. Nothing is claimed beyond the result being a function of
/// the input.
#[verifier::external_body]
pub(crate) fn parse_url(input: &str) -> (parsed: Option<AbsoluteUrl>)
    ensures
        maybe_url(parsed) == parsed_url(input@),
{
    match url::Url::parse(input) {
        Ok(url) => Some(AbsoluteUrl { scheme: url.scheme().to_string(), text: url.to_string() }),
        Err(_) => None,
    }
}

/// The link that a parsed URL stands for: its normal form where the scheme
/// is `http` or `https`, nothing otherwise.
pub open spec fn web_link_of(parsed: Option<(Seq<char>, Seq<char>)>) -> Option<Seq<char>> {
    match parsed {
        Some((scheme, text)) => if scheme == "http"@ || scheme == "https"@ {
            Some(text)
        } else {
            None
        },
        None => None,
    }
}

/// The link that a `href` value stands for, if any.
pub open spec fn link_of(href: Option<Seq<char>>) -> Option<Seq<char>> {
    match href {
        Some(value) => web_link_of(parsed_url(value)),
        None => None,
    }
}

/// The links among `hrefs`, in order.
pub open spec fn links_among(hrefs: Seq<Option<Seq<char>>>) -> Seq<Seq<char>>
    decreases hrefs.len(),
{
    if hrefs.len() == 0 {
        Seq::empty()
    } else {
        match link_of(hrefs.last()) {
            Some(link) => links_among(hrefs.drop_last()).push(link),
            None => links_among(hrefs.drop_last()),
        }
    }
}

/// Keeps a parsed URL if its scheme is `http` or `https`.
pub fn web_link(parsed: Option<AbsoluteUrl>) -> (link: Option<String>)
    ensures
        maybe_text(link) == web_link_of(maybe_url(parsed)),
{
    match parsed {
        Some(url) => {
            if same_text(url.scheme.as_str(), "http") || same_text(url.scheme.as_str(), "https") {
                Some(url.text)
            } else {
                None
            }
        },
        None => None,
    }
}

/// The absolute `http` and `https` URLs among `hrefs`, in order.
pub fn web_links(hrefs: Vec<Option<String>>) -> (links: Vec<String>)
    ensures
        texts(links@) == links_among(
            hrefs@.map_values(|v: Option<String>| maybe_text(v)),
        ),
{
    let ghost all = hrefs@.map_values(|v: Option<String>| maybe_text(v));
    let mut links: Vec<String> = Vec::new();
    assert(texts(links@) =~= links_among(all.take(0)));
    for href in it: hrefs
        invariant
            it.seq().map_values(|v: Option<String>| maybe_text(v)) == all,
            texts(links@) == links_among(all.take(it.index())),
    {
        let ghost done = it.index();
        let ghost before = links@;
        proof {
            assert(all.take(done + 1).drop_last() =~= all.take(done));
            assert(all.take(done + 1).last() == maybe_text(href));
        }
        match href {
            Some(value) => {
                match web_link(parse_url(value.as_str())) {
                    Some(link) => {
                        links.push(link);
                        assert(texts(links@) =~= texts(before).push(
                            link@,
                        ));
                    },
                    None => {},
                }
            },
            None => {},
        }
    }
    proof {
        assert(all.take(all.len() as int) =~= all);
    }
    links
}

} // verus!
