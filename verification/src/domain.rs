//! Addresses and registrable domains: parsing URLs with the `url` crate and
//! finding the registrable part of a host with the Public Suffix List of the
//! `publicsuffix` crate.

use vstd::prelude::*;
use crate::text::all_ascii;

verus! {

#[verifier::external_type_specification]
#[verifier::external_body]
pub struct ExPublicSuffixList(publicsuffix::List);

/// The parts of a parsed URL that the crawler reads: its serialization,
/// its host, if any, and its path.
#[derive(Debug, Clone)]
pub struct ParsedUrl {
    pub serialization: String,
    pub host: Option<String>,
    pub path: String,
}

/// Name for the outcome of `url::Url::parse`: `None` if the text is not a
/// URL, else the serialization (`as_str()`), host (`host_str()`) and path
/// (`path()`) of the parsed URL.
pub uninterp spec fn url_parts(s: Seq<char>) -> Option<(Seq<char>, Option<Seq<char>>, Seq<char>)>;

/// The view of an optional string.
pub open spec fn opt_view(o: Option<String>) -> Option<Seq<char>> {
    match o {
        Some(s) => Some(s@),
        None => None,
    }
}

/// The view of a parsed URL.
pub open spec fn parsed_view(p: Option<ParsedUrl>) -> Option<(Seq<char>, Option<Seq<char>>, Seq<char>)> {
    match p {
        Some(u) => Some((u.serialization@, opt_view(u.host), u.path@)),
        None => None,
    }
}

/// Calls `url::Url::parse` and reads the serialization, the host
/// (`host_str()`, which is also the text that the host's `Display` writes)
/// and the path of the result. The host is ASCII: `host_str()` gives a
/// non-ASCII domain punycode-encoded (special schemes) or percent-encoded
/// (other schemes), and an IPv6 address in brackets.
#[verifier::external_body]
pub(crate) fn parse_url(s: &str) -> (r: Option<ParsedUrl>)
    ensures
        parsed_view(r) == url_parts(s@),
        r matches Some(p) ==> (p.host matches Some(h) ==> all_ascii(h@)),
{
    match url::Url::parse(s) {
        Ok(u) => {
            let host = match u.host_str() {
                Some(h) => Some(h.to_string()),
                None => None,
            };
            Some(ParsedUrl { serialization: u.as_str().to_string(), host, path: u.path().to_string() })
        },
        Err(_) => None,
    }
}

/// Name for whether `publicsuffix::List::from_str` accepts a text as a
/// Public Suffix List.
pub uninterp spec fn suffix_list_accepts(text: Seq<char>) -> bool;

/// Calls `publicsuffix::List::from_str`.
#[verifier::external_body]
fn list_from_str(text: &str) -> (r: Option<publicsuffix::List>)
    ensures
        r is Some <==> suffix_list_accepts(text@),
{
    match publicsuffix::List::from_str(text) {
        Ok(list) => Some(list),
        Err(_) => None,
    }
}

/// A Public Suffix List together with the text it was read from.
pub struct SuffixList {
    list: publicsuffix::List,
    text: Ghost<Seq<char>>,
}

impl SuffixList {
    /// The text this list was read from.
    pub closed spec fn source(self) -> Seq<char> {
        self.text@
    }

    /// Reads a Public Suffix List from its text.
    pub fn from_text(text: &str) -> (r: Option<SuffixList>)
        ensures
            r is Some <==> suffix_list_accepts(text@),
            r matches Some(l) ==> l.source() == text@,
    {
        match list_from_str(text) {
            Some(list) => Some(SuffixList { list, text: Ghost(text@) }),
            None => None,
        }
    }
}

/// Name for what `publicsuffix::List::parse_domain` and `Domain::root` give
/// for a host, with the list read from `list_text`: `None` if the host is not
/// a valid domain, else its registrable domain, if it has one.
pub uninterp spec fn registrable_domain(list_text: Seq<char>, host: Seq<char>) -> Option<Option<Seq<char>>>;

/// The view of a nested optional string.
pub open spec fn opt_opt_view(o: Option<Option<String>>) -> Option<Option<Seq<char>>> {
    match o {
        Some(inner) => Some(opt_view(inner)),
        None => None,
    }
}

/// Calls `publicsuffix::List::parse_domain` on the host and `Domain::root`
/// on the result. The list was built from `list.source()` by
/// `SuffixList::from_text`, the only way to make a `SuffixList`. The host
/// must be ASCII: `parse_domain` converts it to Unicode before matching it
/// against the list, and a non-ASCII full stop (such as U+3002) that becomes
/// a label separator there makes it index past the labels of the input.
#[verifier::external_body]
pub(crate) fn domain_root(list: &SuffixList, host: &str) -> (r: Option<Option<String>>)
    requires
        all_ascii(host@),
    ensures
        opt_opt_view(r) == registrable_domain(list.source(), host@),
{
    match list.list.parse_domain(host) {
        Ok(domain) => match domain.root() {
            Some(root) => Some(Some(root.to_string())),
            None => Some(None),
        },
        Err(_) => None,
    }
}

} // verus!
