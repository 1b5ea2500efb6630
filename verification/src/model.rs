//! The records the crawler stores: metadata of a page, external links and
//! the table that ties a page to its external links, the queue of pages to
//! crawl next, and the information extracted from a page.

use vstd::prelude::*;

verus! {

/// One metadata value (the value of an attribute of a `<meta>` tag) of a page.
#[derive(Debug, Clone, PartialEq, Eq, Hash)]
pub struct Metadata {
    pub id: Option<u32>,
    pub metadata_text: String,
    pub website_id: Option<u32>,
}

/// A registrable domain that a page links to.
#[derive(Debug, Clone, PartialEq, Eq, Hash)]
pub struct ExternalLink {
    pub id: Option<u32>,
    pub url: String,
}

/// Ties a page to one of its external links.
#[derive(Debug, Clone, PartialEq, Eq, Hash)]
pub struct WebsiteRefExtLink {
    pub id: Option<u32>,
    pub website_id: Option<u32>,
    pub ext_link_id: Option<u32>,
}

/// A page queued to be crawled next.
#[derive(Debug, Clone, PartialEq, Eq, Hash)]
pub struct NextUrl {
    pub id: Option<u32>,
    pub url: String,
}

/// What the crawler reads off a page before it is stored: its title, its
/// visible text, its address, the registrable domain of that address and its
/// genre.
#[derive(Debug, Clone, PartialEq, Eq, Hash)]
pub struct WebsiteInfo {
    pub title: String,
    pub text: String,
    pub url: String,
    pub base_url: String,
    pub type_of_website: String,
}

} // verus!
