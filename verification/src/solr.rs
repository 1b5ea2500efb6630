//! Requests to the search index: handler URLs, field queries, the
//! suggester's input check, and the values written back to indexed pages.

use vstd::prelude::*;
use vstd::string::StringExecFns;
use vstd::std_specs::cmp::PartialEqSpecImpl;
use crate::model::{ExternalLink, Metadata};
use crate::query::{build_sort_query, sanitize_query, sanitized, sanitized_ascii, sort_clause, sort_words, word_break};
use crate::settings::{solr_handler, solr_handler_of, Solr};
use crate::text::{all_ascii, decimal, decimal_string, drop_empty, owned, split_by};
use crate::urlenc::{encode, url_encoded};

verus! {

/// One suggestion of the suggester: a term, its weight and its payload.
#[derive(Debug, Clone)]
pub struct Term {
    pub term: String,
    pub weight: i64,
    pub payload: String,
}

/// Two suggestions are the same when their terms are.
impl PartialEq for Term {
    fn eq(&self, other: &Self) -> (r: bool) {
        self.term == other.term
    }
}

impl PartialEqSpecImpl for Term {
    open spec fn obeys_eq_spec() -> bool {
        true
    }

    open spec fn eq_spec(&self, other: &Self) -> bool {
        self.term@ == other.term@
    }
}

/// The select request URL for an already encoded query.
pub open spec fn select_url_of(solr: Solr, query: Seq<char>) -> Seq<char> {
    solr_handler_of(solr, "select"@) + "?q="@ + url_encoded(query)
}

/// Builds the select request URL; the query is percent-encoded.
pub fn select_url(solr: &Solr, query: &str) -> (r: String)
    ensures
        r@ == select_url_of(*solr, query@),
{
    let mut r = solr_handler(solr, "select");
    r.append("?q=");
    let q = encode(query);
    r.append(q.as_str());
    r
}

/// The URL to which pages are posted as JSON documents, committed at once.
pub fn update_url(solr: &Solr) -> (r: String)
    ensures
        r@ == solr_handler_of(*solr, "update"@) + "/json/docs?commit=true"@,
{
    let mut r = solr_handler(solr, "update");
    r.append("/json/docs?commit=true");
    r
}

/// The URL that makes the index import everything from the database anew.
pub fn dataimport_url(solr: &Solr) -> (r: String)
    ensures
        r@ == solr_handler_of(*solr, "dataimport"@) + "?command=full-import&commit=true&clean=true"@,
{
    let mut r = solr_handler(solr, "dataimport");
    r.append("?command=full-import&commit=true&clean=true");
    r
}

/// The suggester request URL for a query.
pub open spec fn suggest_url_of(solr: Solr, query: Seq<char>) -> Seq<char> {
    solr_handler_of(solr, "suggest"@)
        + "?suggest=true&suggest.build=true&suggest.dictionary=mySuggester&wt=json&suggest.q=text%3A"@
        + url_encoded(query) + "&sort="@ + sort_clause(sort_words(sanitized(query)))
}

/// Builds the suggester request URL for a query.
pub fn suggest_url(solr: &Solr, query: &String) -> (r: String)
    ensures
        r@ == suggest_url_of(*solr, query@),
        all_ascii(query@) ==> r@ == solr_handler_of(*solr, "suggest"@)
            + "?suggest=true&suggest.build=true&suggest.dictionary=mySuggester&wt=json&suggest.q=text%3A"@
            + url_encoded(query@) + "&sort="@ + sort_clause(drop_empty(split_by(sanitized(query@), word_break()))),
{
    let mut r = solr_handler(solr, "suggest");
    r.append("?suggest=true&suggest.build=true&suggest.dictionary=mySuggester&wt=json&suggest.q=text%3A");
    let q = encode(query.as_str());
    r.append(q.as_str());
    r.append("&sort=");
    proof {
        if all_ascii(query@) {
            sanitized_ascii(query@);
        }
    }
    let sort = build_sort_query(sanitize_query(query));
    r.append(sort.as_str());
    r
}

/// The suggester was given a query it does not take.
#[derive(Debug, Clone)]
pub struct SuggesterUnexpectedParam(pub String);

impl SuggesterUnexpectedParam {
    /// The text that describes the error.
    pub fn message(&self) -> (m: String)
        ensures
            m@ == "invalid parameter passed to suggest(): "@ + self.0@,
    {
        let mut m = owned("invalid parameter passed to suggest(): ");
        m.append(self.0.as_str());
        m
    }
}

/// The suggester takes queries of 2 to 255 characters.
pub open spec fn suggestible(query: Seq<char>) -> bool {
    2 <= query.len() <= 255
}

/// Checks that a query has between 2 and 255 characters.
pub fn check_suggest_query(query: &String) -> (r: Result<(), SuggesterUnexpectedParam>)
    ensures
        r is Ok <==> suggestible(query@),
        r matches Err(e) ==> e.0@ == "query string should be between 2 and 255 characters long"@,
{
    let n = query.as_str().unicode_len();
    if n < 2 || n > 255 {
        Err(SuggesterUnexpectedParam(owned("query string should be between 2 and 255 characters long")))
    } else {
        Ok(())
    }
}

/// The query that finds a page by its address.
pub fn url_query(url: &str) -> (r: String)
    ensures
        r@ == "url:\""@ + url@ + "\""@,
{
    let mut r = owned("url:\"");
    r.append(url);
    r.append("\"");
    r
}

/// The query that finds a page by its id.
pub fn id_query(id: u32) -> (r: String)
    ensures
        r@ == "id:\""@ + decimal(id as nat) + "\""@,
{
    let mut r = owned("id:\"");
    let d = decimal_string(id as u64);
    r.append(d.as_str());
    r.append("\"");
    r
}

/// The query that finds the pages of non-negative rank linking to a domain.
pub fn linking_query(base_url: &str) -> (r: String)
    ensures
        r@ == "external_links:\""@ + base_url@ + "\" AND rank:[0.0 TO *]"@,
{
    let mut r = owned("external_links:\"");
    r.append(base_url);
    r.append("\" AND rank:[0.0 TO *]");
    r
}

/// The texts of a page's metadata, in order, as they are written to the index.
pub fn metadata_texts(metadata: &Vec<Metadata>) -> (r: Vec<String>)
    ensures
        r@.len() == metadata@.len(),
        forall|i: int| 0 <= i < r@.len() ==> r@[i]@ == metadata@[i].metadata_text@,
{
    let mut r: Vec<String> = Vec::new();
    let mut i: usize = 0;
    while i < metadata.len()
        invariant
            i <= metadata.len(),
            r@.len() == i,
            forall|k: int| 0 <= k < i ==> r@[k]@ == metadata@[k].metadata_text@,
        decreases metadata.len() - i,
    {
        r.push(metadata[i].metadata_text.clone());
        i = i + 1;
    }
    r
}

/// The domains of a page's external links, in order, as they are written to
/// the index.
pub fn ext_link_urls(external_links: &Vec<ExternalLink>) -> (r: Vec<String>)
    ensures
        r@.len() == external_links@.len(),
        forall|i: int| 0 <= i < r@.len() ==> r@[i]@ == external_links@[i].url@,
{
    let mut r: Vec<String> = Vec::new();
    let mut i: usize = 0;
    while i < external_links.len()
        invariant
            i <= external_links.len(),
            r@.len() == i,
            forall|k: int| 0 <= k < i ==> r@[k]@ == external_links@[k].url@,
        decreases external_links.len() - i,
    {
        r.push(external_links[i].url.clone());
        i = i + 1;
    }
    r
}

} // verus!
