//! Refusing a request that changes something and that another site made a browser send.
use crate::text::{chars_start_with, from_chars, same, to_chars};
use vstd::prelude::*;
use vstd::string::*;

verus! {

/// The request headers that tell where a request comes from.
#[derive(Clone, Debug)]
pub struct OriginHeaders {
    pub sec_fetch_site: Option<String>,
    pub origin: Option<String>,
    pub host: Option<String>,
}

/// Whether a request with a method may change something.
pub open spec fn changes_something(method: Seq<char>) -> bool {
    method == "POST"@ || method == "PUT"@ || method == "PATCH"@ || method == "DELETE"@
}

/// What stands behind the first separator, from a place on.
pub open spec fn behind(text: Seq<char>, separator: Seq<char>, at: int) -> Option<Seq<char>>
    decreases text.len() + 1 - at,
{
    if at < 0 || at + separator.len() > text.len() {
        None
    } else if text.subrange(at, at + separator.len()) == separator {
        Some(text.skip(at + separator.len()))
    } else {
        behind(text, separator, at + 1)
    }
}

/// Whether a request is served. One that only reads always is. Of the others, the browser's
/// own word on where it comes from decides, if there is one: the page itself, or the user. If
/// not, an origin has to be the host that was asked. One with neither comes from no browser.
pub open spec fn allowed(method: Seq<char>, headers: OriginHeaders) -> bool {
    if !changes_something(method) {
        true
    } else {
        match headers.sec_fetch_site {
            Some(site) => site@ == "same-origin"@ || site@ == "none"@,
            None => match headers.origin {
                Some(origin) => match headers.host {
                    Some(host) => behind(origin@, "://"@, 0) == Some(host@),
                    None => false,
                },
                None => true,
            },
        }
    }
}

/// Finds what stands behind the first separator of a text.
fn split_behind(text: &str, separator: &str) -> (r: Option<String>)
    ensures
        match r {
            Some(rest) => behind(text@, separator@, 0) == Some(rest@),
            None => behind(text@, separator@, 0) is None,
        },
{
    let chars = to_chars(text);
    let parts = to_chars(separator);
    let mut at: usize = 0;
    while parts.len() <= chars.len() && at <= chars.len() - parts.len()
        invariant
            chars@ == text@,
            parts@ == separator@,
            at <= chars@.len() + 1,
            parts@.len() <= chars@.len() ==> at <= chars@.len() - parts@.len() + 1,
            behind(text@, separator@, 0) == behind(text@, separator@, at as int),
        decreases chars.len() + 1 - at,
    {
        if chars_start_with(&chars, at, &parts) {
            let rest = from_chars(&chars, at + parts.len(), chars.len());
            assert(text@.subrange(at as int, at + separator@.len()) =~= separator@);
            assert(rest@ =~= text@.skip(at + separator@.len()));
            return Some(rest);
        }
        at = at + 1;
    }
    None
}

/// Tells whether a request is served.
pub fn is_allowed(method: &str, headers: &OriginHeaders) -> (b: bool)
    ensures
        b == allowed(method@, *headers),
{
    if !(same(method, "POST") || same(method, "PUT") || same(method, "PATCH") || same(
        method,
        "DELETE",
    )) {
        return true;
    }
    match &headers.sec_fetch_site {
        Some(site) => same(site.as_str(), "same-origin") || same(site.as_str(), "none"),
        None => match &headers.origin {
            Some(origin) => match &headers.host {
                Some(host) => match split_behind(origin.as_str(), "://") {
                    Some(authority) => same(authority.as_str(), host.as_str()),
                    None => false,
                },
                None => false,
            },
            None => true,
        },
    }
}

/// A request that only reads is served, wherever it comes from.
pub proof fn a_read_is_always_served(method: Seq<char>, headers: OriginHeaders)
    requires
        !changes_something(method),
    ensures
        allowed(method, headers),
{
}

/// A request that a browser says another site made it send, and that may change something, is
/// refused, whatever else it says.
pub proof fn another_site_changes_nothing(method: Seq<char>, headers: OriginHeaders)
    requires
        changes_something(method),
        headers.sec_fetch_site matches Some(site) && site@ != "same-origin"@ && site@ != "none"@,
    ensures
        !allowed(method, headers),
{
}

/// So is one from a browser that says only which origin it comes from, unless that is the host
/// that was asked.
pub proof fn another_origin_changes_nothing(method: Seq<char>, headers: OriginHeaders)
    requires
        changes_something(method),
        headers.sec_fetch_site is None,
        headers.origin matches Some(origin) && (headers.host matches Some(host) ==> behind(
            origin@,
            "://"@,
            0,
        ) != Some(host@)),
    ensures
        !allowed(method, headers),
{
}

/// A request that no browser made is served: nothing but a browser is made to send one by
/// another site.
pub proof fn a_request_from_no_browser_is_served(method: Seq<char>, headers: OriginHeaders)
    requires
        headers.sec_fetch_site is None,
        headers.origin is None,
    ensures
        allowed(method, headers),
{
}

/// What stands behind the first separator is everything behind it: in a text that is something
/// without a separator, then one, then the rest, it is the rest; and there is none where there
/// is no separator.
pub proof fn what_follows_the_first_separator(
    text: Seq<char>,
    separator: Seq<char>,
    at: int,
)
    requires
        0 <= at,
        at + separator.len() <= text.len(),
        text.subrange(at, at + separator.len()) == separator,
        forall|k: int|
            0 <= k < at ==> #[trigger] text.subrange(k, k + separator.len()) != separator,
    ensures
        behind(text, separator, 0) == Some(text.skip(at + separator.len())),
{
    lemma_behind(text, separator, 0, at);
}

proof fn lemma_behind(text: Seq<char>, separator: Seq<char>, from: int, at: int)
    requires
        0 <= from <= at,
        at + separator.len() <= text.len(),
        text.subrange(at, at + separator.len()) == separator,
        forall|k: int|
            0 <= k < at ==> #[trigger] text.subrange(k, k + separator.len()) != separator,
    ensures
        behind(text, separator, from) == Some(text.skip(at + separator.len())),
    decreases at - from,
{
    if from < at {
        assert(text.subrange(from, from + separator.len()) != separator);
        lemma_behind(text, separator, from + 1, at);
    }
}

/// The dashboard's own pages may change things: a request that a browser says comes from the
/// page itself, or from the user, is served, and so is one whose origin is a scheme and the
/// host that was asked.
pub proof fn the_page_itself_is_served(method: Seq<char>, headers: OriginHeaders, scheme: Seq<char>)
    requires
        !scheme.contains(':'),
        ({
            ||| headers.sec_fetch_site matches Some(site) && (site@ == "same-origin"@ || site@
                == "none"@)
            ||| {
                &&& headers.sec_fetch_site is None
                &&& headers.host is Some
                &&& headers.origin matches Some(origin)
                &&& origin@ == scheme + "://"@ + headers.host->0@
            }
        }),
    ensures
        allowed(method, headers),
{
    if headers.sec_fetch_site is None {
        reveal_strlit("://");
        let origin = headers.origin->0@;
        let at = scheme.len() as int;
        assert(origin.subrange(at, at + 3) =~= "://"@);
        assert forall|k: int| 0 <= k < at implies #[trigger] origin.subrange(k, k + 3)
            != "://"@ by {
            assert(origin.subrange(k, k + 3)[0] == scheme[k]);
            assert(scheme.contains(scheme[k]));
        }
        what_follows_the_first_separator(origin, "://"@, at);
        assert(origin.skip(at + 3) =~= headers.host->0@);
    }
}

/// An origin on another host changes nothing, whichever of the changing methods it uses; nor
/// does one where the request says no host.
pub proof fn another_host_changes_nothing(
    method: Seq<char>,
    headers: OriginHeaders,
    scheme: Seq<char>,
    other: Seq<char>,
)
    requires
        method == "POST"@ || method == "PUT"@ || method == "PATCH"@ || method == "DELETE"@,
        !scheme.contains(':'),
        headers.sec_fetch_site is None,
        headers.origin matches Some(origin) && origin@ == scheme + "://"@ + other,
        headers.host matches Some(host) ==> host@ != other,
    ensures
        !allowed(method, headers),
{
    reveal_strlit("://");
    let origin = headers.origin->0@;
    let at = scheme.len() as int;
    assert(origin.subrange(at, at + 3) =~= "://"@);
    assert forall|k: int| 0 <= k < at implies #[trigger] origin.subrange(k, k + 3) != "://"@ by {
        assert(origin.subrange(k, k + 3)[0] == scheme[k]);
        assert(scheme.contains(scheme[k]));
    }
    what_follows_the_first_separator(origin, "://"@, at);
    assert(origin.skip(at + 3) =~= other);
}

/// No method that changes something slips through: what a browser says another site sent is
/// refused under each of the four, and served under every other.
pub proof fn each_changing_method_is_guarded(method: Seq<char>, headers: OriginHeaders)
    requires
        headers.sec_fetch_site matches Some(site) && site@ != "same-origin"@ && site@ != "none"@,
    ensures
        !allowed(method, headers) <==> (method == "POST"@ || method == "PUT"@ || method
            == "PATCH"@ || method == "DELETE"@),
{
}

} // verus!
