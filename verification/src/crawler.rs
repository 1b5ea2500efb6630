//! What the crawler reads off a fetched page: its registrable domain, its
//! title and text, its metadata, the external domains it links to and its
//! genre; and the reshaping of extracted records before they are stored.

use vstd::prelude::*;
use vstd::string::StringExecFns;
use crate::domain::{domain_root, opt_view, parse_url, registrable_domain, url_parts, SuffixList};
use crate::classify::{genre_of_lowercase, offline_genre};
use crate::html::{
    attribute_of_each, attribute_values, concat_all, first_has_only_text_children, first_text_nodes, has_element,
    html_escaped, select_attribute_of_each,
    select_attribute_values, select_first_inner_html, select_first_text_nodes,
};
use crate::model::{ExternalLink, Metadata, WebsiteInfo, WebsiteRefExtLink};
use crate::text::{
    contains_string, drop_empty, drop_empty_keeps_nonempty, lemma_separated_push, lemma_separated_single, lowercase, owned,
    separated_by, to_lowercase, trim, trimmed, views,
};

verus! {

/// The crawler. It holds no state: every step gets what it works on.
pub struct Crawler {}

/// Why no registrable domain could be read off an address.
#[derive(Debug, Clone, Copy, PartialEq, Eq, Structural)]
pub enum BaseUrlError {
    /// The address is not a URL.
    InvalidUrl,
    /// The host of the address is not a valid domain name.
    InvalidDomain,
}

/// The registrable domain of an address, or why there is none. `None` where
/// the address has no host, or its domain has no registrable part: there
/// the crawler gives up on the page.
pub open spec fn base_url_outcome(list_text: Seq<char>, url: Seq<char>) -> Option<Result<Seq<char>, BaseUrlError>> {
    match url_parts(url) {
        None => Some(Err(BaseUrlError::InvalidUrl)),
        Some((_, None, _)) => None,
        Some((_, Some(host), _)) => match registrable_domain(list_text, host) {
            None => Some(Err(BaseUrlError::InvalidDomain)),
            Some(None) => None,
            Some(Some(root)) => Some(Ok(root)),
        },
    }
}

/// The view of a domain or an error.
pub open spec fn base_url_view(r: Result<String, BaseUrlError>) -> Result<Seq<char>, BaseUrlError> {
    match r {
        Ok(s) => Ok(s@),
        Err(e) => Err(e),
    }
}

/// Pieces joined with a separator between each two.
pub open spec fn joined(ps: Seq<Seq<char>>, sep: Seq<char>) -> Seq<char>
    decreases ps.len(),
{
    if ps.len() == 0 {
        Seq::empty()
    } else if ps.len() == 1 {
        ps[0]
    } else {
        joined(ps.drop_last(), sep) + sep + ps.last()
    }
}

/// Each piece trimmed.
pub open spec fn trimmed_all(ps: Seq<Seq<char>>) -> Seq<Seq<char>> {
    Seq::new(ps.len(), |i: int| trimmed(ps[i]))
}

/// The visible text of a page from its text nodes: each trimmed, the empty
/// ones dropped, the rest joined by `", "`.
pub open spec fn page_text(nodes: Seq<Seq<char>>) -> Seq<char> {
    joined(drop_empty(trimmed_all(nodes)), ", "@)
}

/// Whether everything that page extraction reads is there.
pub open spec fn website_info_defined(body: Seq<char>, url: Seq<char>, list_text: Seq<char>) -> bool {
    &&& has_element(body, "title"@)
    &&& first_text_nodes(body, "body"@) is Some
    &&& base_url_outcome(list_text, url) matches Some(Ok(_))
}

impl Crawler {
    /// Whether a registrable domain or an error can be read off an address.
    pub fn base_url_defined(list: &SuffixList, url: &str) -> (b: bool)
        ensures
            b == (base_url_outcome(list.source(), url@) is Some),
    {
        match parse_url(url) {
            None => true,
            Some(p) => match p.host {
                None => false,
                Some(host) => match domain_root(list, host.as_str()) {
                    None => true,
                    Some(None) => false,
                    Some(Some(_)) => true,
                },
            },
        }
    }

    /// The registrable domain of an address (`https://www.example.com/a`
    /// gives `example.com`), read with the given Public Suffix List.
    pub fn extract_base_url(list: &SuffixList, url: &str) -> (r: Result<String, BaseUrlError>)
        requires
            base_url_outcome(list.source(), url@) is Some,
        ensures
            Some(base_url_view(r)) == base_url_outcome(list.source(), url@),
    {
        match parse_url(url) {
            None => Err(BaseUrlError::InvalidUrl),
            Some(p) => match p.host {
                None => Err(BaseUrlError::InvalidUrl),
                Some(host) => match domain_root(list, host.as_str()) {
                    None => Err(BaseUrlError::InvalidDomain),
                    Some(None) => Err(BaseUrlError::InvalidDomain),
                    Some(Some(root)) => Ok(root),
                },
            },
        }
    }

    /// The registrable domain of an address, or `None` where the address has
    /// no host or its domain no registrable part.
    pub fn try_extract_base_url(list: &SuffixList, url: &str) -> (r: Option<Result<String, BaseUrlError>>)
        ensures
            r is Some <==> base_url_outcome(list.source(), url@) is Some,
            r matches Some(x) ==> Some(base_url_view(x)) == base_url_outcome(list.source(), url@),
    {
        if Self::base_url_defined(list, url) {
            Some(Self::extract_base_url(list, url))
        } else {
            None
        }
    }

    /// The information of a page from its raw title, its text nodes, its
    /// address and its registrable domain; the genre starts as `default`.
    pub fn website_info_from_parts(title_html: &str, text_nodes: &Vec<String>, url: &str, base_url: String) -> (w: WebsiteInfo)
        ensures
            w.title@ == trimmed(title_html@),
            w.text@ == page_text(views(text_nodes@)),
            w.url@ == url@,
            w.base_url@ == base_url@,
            w.type_of_website@ == "default"@,
    {
        let title = trim(title_html);
        let ghost nodes = views(text_nodes@);
        let mut text = String::new();
        let mut any = false;
        let mut i: usize = 0;
        assert(trimmed_all(nodes).take(0) =~= Seq::<Seq<char>>::empty());
        while i < text_nodes.len()
            invariant
                nodes == views(text_nodes@),
                i <= text_nodes.len(),
                text@ == joined(drop_empty(trimmed_all(nodes).take(i as int)), ", "@),
                any == (drop_empty(trimmed_all(nodes).take(i as int)).len() > 0),
            decreases text_nodes.len() - i,
        {
            let t = trim(text_nodes[i].as_str());
            let ghost d = drop_empty(trimmed_all(nodes).take(i as int));
            proof {
                assert(trimmed_all(nodes).take(i + 1).drop_last() =~= trimmed_all(nodes).take(i as int));
                assert(trimmed_all(nodes).take(i + 1).last() == t@);
            }
            if t.as_str().unicode_len() > 0 {
                if any {
                    text.append(", ");
                }
                text.append(t.as_str());
                any = true;
                proof {
                    let d2 = drop_empty(trimmed_all(nodes).take(i + 1));
                    assert(d2 == d.push(t@));
                    assert(d2.drop_last() =~= d);
                    assert(text@ =~= joined(d2, ", "@));
                }
            }
            i = i + 1;
        }
        assert(trimmed_all(nodes).take(text_nodes.len() as int) =~= trimmed_all(nodes));
        WebsiteInfo { title, text, url: owned(url), base_url, type_of_website: owned("default") }
    }

    /// The information of a fetched page: the trimmed inner HTML of its
    /// first `<title>`, the text of its first `<body>`, its address and its
    /// registrable domain. `None` where the page has no title or no body, or
    /// the domain cannot be read. Where the `<title>` holds only text, as an
    /// HTML title does, the title is that text, escaped as HTML and trimmed.
    /// Where it holds elements (an SVG title may), the contract says only
    /// that it is a trimmed text: the inner HTML that the parser writes out
    /// lists the attributes of child elements in an order that varies between
    /// runs.
    pub fn extract_website_info(body: &str, url: &str, list: &SuffixList) -> (r: Option<WebsiteInfo>)
        ensures
            r is Some <==> website_info_defined(body@, url@, list.source()),
            r matches Some(w) ==> {
                &&& first_has_only_text_children(body@, "title"@) ==> w.title@ == trimmed(
                    html_escaped(concat_all(first_text_nodes(body@, "title"@)->0)),
                )
                &&& exists|t: Seq<char>| w.title@ == trimmed(t)
                &&& w.text@ == page_text(first_text_nodes(body@, "body"@)->0)
                &&& w.url@ == url@
                &&& base_url_outcome(list.source(), url@) == Some(Ok::<Seq<char>, BaseUrlError>(w.base_url@))
                &&& w.type_of_website@ == "default"@
            },
    {
        proof {
            reveal_strlit("title");
            reveal_strlit("body");
        }
        let title = match select_first_inner_html(body, "title") {
            Some(t) => t,
            None => return None,
        };
        let texts = match select_first_text_nodes(body, "body") {
            Some(t) => t,
            None => return None,
        };
        if !Self::base_url_defined(list, url) {
            return None;
        }
        match Self::extract_base_url(list, url) {
            Ok(base_url) => Some(Self::website_info_from_parts(title.as_str(), &texts, url, base_url)),
            Err(_) => None,
        }
    }
}

/// The sequences of a sequence of sequences, one after the other.
pub open spec fn flatten(gs: Seq<Seq<Seq<char>>>) -> Seq<Seq<char>>
    decreases gs.len(),
{
    if gs.len() == 0 {
        Seq::empty()
    } else {
        flatten(gs.drop_last()) + gs.last()
    }
}

/// The texts of a list of metadata.
pub open spec fn meta_texts(ms: Seq<Metadata>) -> Seq<Seq<char>> {
    Seq::new(ms.len(), |i: int| ms[i].metadata_text@)
}

/// Every metadata has no id yet and belongs to the given page.
pub open spec fn all_fresh_for(ms: Seq<Metadata>, website_id: Option<u32>) -> bool {
    forall|i: int| 0 <= i < ms.len() ==> #[trigger] ms[i].id is None && ms[i].website_id == website_id
}

/// The attribute values of each `<meta>` element of a page, grouped by
/// element in document order, each group in some order of the element's
/// attribute multiset.
pub open spec fn meta_groups_of(gs: Seq<Seq<Seq<char>>>, body: Seq<char>) -> bool {
    &&& gs.len() == attribute_values(body, "meta"@).len()
    &&& forall|i: int| 0 <= i < gs.len() ==> #[trigger] gs[i].to_multiset() == attribute_values(body, "meta"@)[i]
}

/// The parts of the external links of a page: each link's registrable
/// domain and its full address.
pub open spec fn link_roots(ls: Seq<(Seq<char>, Seq<char>)>) -> Seq<Seq<char>> {
    Seq::new(ls.len(), |i: int| ls[i].0)
}

/// The full addresses of the external links of a page.
pub open spec fn link_addresses(ls: Seq<(Seq<char>, Seq<char>)>) -> Seq<Seq<char>> {
    Seq::new(ls.len(), |i: int| ls[i].1)
}

/// The members of a sequence without repetitions, each at its first occurrence.
pub open spec fn dedup(s: Seq<Seq<char>>) -> Seq<Seq<char>>
    decreases s.len(),
{
    if s.len() == 0 {
        Seq::empty()
    } else {
        let d = dedup(s.drop_last());
        if d.contains(s.last()) {
            d
        } else {
            d.push(s.last())
        }
    }
}

/// The present values among optional ones, in order.
pub open spec fn somes(v: Seq<Option<Seq<char>>>) -> Seq<Seq<char>>
    decreases v.len(),
{
    if v.len() == 0 {
        Seq::empty()
    } else {
        match v.last() {
            Some(x) => somes(v.drop_last()).push(x),
            None => somes(v.drop_last()),
        }
    }
}

/// The `href` values of the `<a>` elements of a page, in document order.
pub open spec fn page_hrefs(body: Seq<char>) -> Seq<Seq<char>> {
    somes(attribute_of_each(body, "a"@, "href"@))
}

/// The registrable domain of the page's own address; `None` where the
/// address has no host or its host is not a valid domain, where the
/// crawler gives up on the page.
pub open spec fn page_root_outcome(list_text: Seq<char>, url: Seq<char>) -> Option<Option<Seq<char>>> {
    match url_parts(url) {
        None => None,
        Some((_, None, _)) => None,
        Some((_, Some(host), _)) => registrable_domain(list_text, host),
    }
}

/// What one link of a page gives: `Some(Some((domain, address)))` for a link
/// to another registrable domain, `Some(None)` for a link that is skipped (not
/// a URL, without host, or to the page's own domain), and `None` where the
/// crawler gives up on the page (a host that is not a valid domain,
/// or an outside host without registrable domain).
pub open spec fn href_outcome(list_text: Seq<char>, page_root: Option<Seq<char>>, href: Seq<char>) -> Option<Option<(Seq<char>, Seq<char>)>> {
    match url_parts(href) {
        None => Some(None),
        Some((_, None, _)) => Some(None),
        Some((address, Some(host), _)) => match registrable_domain(list_text, host) {
            None => None,
            Some(root) => if root == page_root {
                Some(None)
            } else {
                match root {
                    None => None,
                    Some(r) => Some(Some((r, address))),
                }
            },
        },
    }
}

/// The external links of a list of links, in order.
pub open spec fn links_outcome(list_text: Seq<char>, page_root: Option<Seq<char>>, hrefs: Seq<Seq<char>>) -> Option<Seq<(Seq<char>, Seq<char>)>>
    decreases hrefs.len(),
{
    if hrefs.len() == 0 {
        Some(Seq::empty())
    } else {
        match links_outcome(list_text, page_root, hrefs.drop_last()) {
            None => None,
            Some(ls) => match href_outcome(list_text, page_root, hrefs.last()) {
                None => None,
                Some(None) => Some(ls),
                Some(Some(l)) => Some(ls.push(l)),
            },
        }
    }
}

/// The external links of a page, in document order, or `None` where the
/// crawler gives up on the page. A page without links is never
/// given up on: its own address is only read when it has links.
pub open spec fn external_links_outcome(body: Seq<char>, url: Seq<char>, list_text: Seq<char>) -> Option<Seq<(Seq<char>, Seq<char>)>> {
    let hrefs = page_hrefs(body);
    if hrefs.len() == 0 {
        Some(Seq::empty())
    } else {
        match page_root_outcome(list_text, url) {
            None => None,
            Some(page_root) => links_outcome(list_text, page_root, hrefs),
        }
    }
}

/// Once links give up, more links do not change that.
proof fn lemma_links_outcome_none(list_text: Seq<char>, page_root: Option<Seq<char>>, hrefs: Seq<Seq<char>>, i: int)
    requires
        0 <= i <= hrefs.len(),
        links_outcome(list_text, page_root, hrefs.take(i)) is None,
    ensures
        links_outcome(list_text, page_root, hrefs) is None,
    decreases hrefs.len() - i,
{
    if i < hrefs.len() {
        assert(hrefs.take(i + 1).drop_last() =~= hrefs.take(i));
        lemma_links_outcome_none(list_text, page_root, hrefs, i + 1);
    } else {
        assert(hrefs.take(i) =~= hrefs);
    }
}

/// The external links of a page: the distinct registrable domains it links
/// to, each tied to the page, and the full address of every such link, to
/// be queued for crawling.
#[derive(Debug, Clone)]
pub struct ExtractedLinks {
    pub links: Vec<(ExternalLink, WebsiteRefExtLink)>,
    pub to_crawl: Vec<String>,
}

/// The domains of a list of external links.
pub open spec fn link_urls(ls: Seq<(ExternalLink, WebsiteRefExtLink)>) -> Seq<Seq<char>> {
    Seq::new(ls.len(), |i: int| ls[i].0.url@)
}

/// Every external link is new (no ids) and tied to the given page.
pub open spec fn fresh_links_for(ls: Seq<(ExternalLink, WebsiteRefExtLink)>, website_id: Option<u32>) -> bool {
    forall|i: int| 0 <= i < ls.len() ==> {
        &&& (#[trigger] ls[i]).0.id is None
        &&& ls[i].1.id is None
        &&& ls[i].1.website_id == website_id
        &&& ls[i].1.ext_link_id is None
    }
}

/// The view of a list of extracted links.
pub open spec fn extracted_matches(x: ExtractedLinks, ls: Seq<(Seq<char>, Seq<char>)>, website_id: Option<u32>) -> bool {
    &&& link_urls(x.links@) == dedup(link_roots(ls))
    &&& fresh_links_for(x.links@, website_id)
    &&& views(x.to_crawl@) == link_addresses(ls)
}

fn same_root(a: &Option<String>, b: &Option<String>) -> (r: bool)
    ensures
        r == (opt_view(*a) == opt_view(*b)),
{
    match (a, b) {
        (Some(x), Some(y)) => *x == *y,
        (None, None) => true,
        _ => false,
    }
}

impl Crawler {
    /// Metadata from the attribute values of a page's `<meta>` elements, one
    /// per value, group after group, all tied to the given page.
    pub fn metadata_from_groups(groups: &Vec<Vec<String>>, website_id: Option<u32>) -> (ms: Vec<Metadata>)
        ensures
            meta_texts(ms@) == flatten(Seq::new(groups@.len(), |i: int| views(groups@[i]@))),
            all_fresh_for(ms@, website_id),
    {
        let ghost gs = Seq::new(groups@.len(), |i: int| views(groups@[i]@));
        let mut ms: Vec<Metadata> = Vec::new();
        let mut i: usize = 0;
        assert(gs.take(0) =~= Seq::<Seq<Seq<char>>>::empty());
        while i < groups.len()
            invariant
                gs == Seq::new(groups@.len(), |i: int| views(groups@[i]@)),
                i <= groups.len(),
                meta_texts(ms@) == flatten(gs.take(i as int)),
                all_fresh_for(ms@, website_id),
            decreases groups.len() - i,
        {
            let group = &groups[i];
            let ghost before = meta_texts(ms@);
            let mut j: usize = 0;
            while j < group.len()
                invariant
                    i < groups.len(),
                    group == &groups@[i as int],
                    j <= group.len(),
                    meta_texts(ms@) == before + views(group@).take(j as int),
                    all_fresh_for(ms@, website_id),
                decreases group.len() - j,
            {
                let ghost old_texts = meta_texts(ms@);
                let text = group[j].clone();
                ms.push(Metadata { id: None, metadata_text: text, website_id });
                assert(meta_texts(ms@) =~= old_texts.push(group@[j as int]@));
                assert(views(group@).take(j + 1) =~= views(group@).take(j as int).push(group@[j as int]@));
                assert(meta_texts(ms@) =~= before + views(group@).take(j + 1));
                j = j + 1;
            }
            proof {
                assert(views(group@).take(group.len() as int) =~= views(group@));
                assert(gs.take(i + 1).drop_last() =~= gs.take(i as int));
                assert(gs.take(i + 1).last() == views(group@));
            }
            i = i + 1;
        }
        assert(gs.take(groups.len() as int) =~= gs);
        ms
    }

    /// The metadata of a fetched page: one per attribute value of each of
    /// its `<meta>` elements, all tied to the given page.
    pub fn extract_metadata_info(body: &str, website_id: Option<u32>) -> (ms: Vec<Metadata>)
        ensures
            exists|gs: Seq<Seq<Seq<char>>>| meta_groups_of(gs, body@) && meta_texts(ms@) == flatten(gs),
            all_fresh_for(ms@, website_id),
    {
        proof {
            reveal_strlit("meta");
        }
        let groups = select_attribute_values(body, "meta");
        let ms = Self::metadata_from_groups(&groups, website_id);
        proof {
            let gs = Seq::new(groups@.len(), |i: int| views(groups@[i]@));
            assert(meta_groups_of(gs, body@));
        }
        ms
    }

    /// External links from the domains and addresses of a page's links to
    /// other domains: each domain once, at its first occurrence, tied to the
    /// page, and every address to be queued for crawling.
    pub fn collect_external_links(externals: &Vec<(String, String)>, website_id: Option<u32>) -> (x: ExtractedLinks)
        ensures
            extracted_matches(x, Seq::new(externals@.len(), |i: int| (externals@[i].0@, externals@[i].1@)), website_id),
    {
        let ghost ls = Seq::new(externals@.len(), |i: int| (externals@[i].0@, externals@[i].1@));
        let mut links: Vec<(ExternalLink, WebsiteRefExtLink)> = Vec::new();
        let mut seen: Vec<String> = Vec::new();
        let mut to_crawl: Vec<String> = Vec::new();
        let mut i: usize = 0;
        assert(link_roots(ls).take(0) =~= Seq::<Seq<char>>::empty());
        while i < externals.len()
            invariant
                ls == Seq::new(externals@.len(), |i: int| (externals@[i].0@, externals@[i].1@)),
                i <= externals.len(),
                views(seen@) == dedup(link_roots(ls).take(i as int)),
                link_urls(links@) == views(seen@),
                fresh_links_for(links@, website_id),
                views(to_crawl@) == link_addresses(ls).take(i as int),
            decreases externals.len() - i,
        {
            let root = &externals[i].0;
            proof {
                assert(link_roots(ls).take(i + 1).drop_last() =~= link_roots(ls).take(i as int));
                assert(link_roots(ls).take(i + 1).last() == root@);
            }
            if !contains_string(&seen, root) {
                seen.push(root.clone());
                links.push((ExternalLink { id: None, url: root.clone() }, WebsiteRefExtLink { id: None, website_id, ext_link_id: None }));
                assert(views(seen@) =~= dedup(link_roots(ls).take(i + 1)));
                assert(link_urls(links@) =~= views(seen@));
            }
            let ghost old_crawl = views(to_crawl@);
            let address = externals[i].1.clone();
            to_crawl.push(address);
            assert(link_addresses(ls)[i as int] == externals@[i as int].1@);
            assert(views(to_crawl@) =~= old_crawl.push(externals@[i as int].1@));
            assert(views(to_crawl@) =~= link_addresses(ls).take(i + 1));
            i = i + 1;
        }
        assert(link_roots(ls).take(externals.len() as int) =~= link_roots(ls));
        assert(link_addresses(ls).take(externals.len() as int) =~= link_addresses(ls));
        ExtractedLinks { links, to_crawl }
    }

    /// The external links of a fetched page at the given address: the
    /// registrable domains, other than the page's own, of the hosts its `<a>`
    /// elements point to. `None` where the page's own address has no host or
    /// no valid domain while it has links, or a link's host is not a valid
    /// domain, or an outside host has no registrable domain.
    pub fn extract_external_links(body: &str, website_id: Option<u32>, url: &str, list: &SuffixList) -> (r: Option<ExtractedLinks>)
        ensures
            r is Some <==> external_links_outcome(body@, url@, list.source()) is Some,
            r matches Some(x) ==> extracted_matches(x, external_links_outcome(body@, url@, list.source())->0, website_id),
    {
        proof {
            reveal_strlit("a");
            reveal_strlit("href");
        }
        let ghost list_text = list.source();
        let values = select_attribute_of_each(body, "a", "href");
        let ghost vs = attribute_of_each(body@, "a"@, "href"@);
        let mut hrefs: Vec<String> = Vec::new();
        let mut i: usize = 0;
        assert(vs.take(0) =~= Seq::<Option<Seq<char>>>::empty());
        while i < values.len()
            invariant
                crate::html::opt_views(values@) == vs,
                i <= values.len(),
                views(hrefs@) == somes(vs.take(i as int)),
            decreases values.len() - i,
        {
            proof {
                assert(vs.take(i + 1).drop_last() =~= vs.take(i as int));
            }
            match &values[i] {
                Some(v) => {
                    hrefs.push(v.clone());
                    assert(views(hrefs@) =~= somes(vs.take(i + 1)));
                },
                None => {},
            }
            i = i + 1;
        }
        assert(vs.take(values.len() as int) =~= vs);
        let ghost hs = views(hrefs@);
        let mut externals: Vec<(String, String)> = Vec::new();
        if hrefs.len() == 0 {
            let x = Self::collect_external_links(&externals, website_id);
            assert(Seq::new(externals@.len(), |i: int| (externals@[i].0@, externals@[i].1@)) =~= Seq::<(Seq<char>, Seq<char>)>::empty());
            return Some(x);
        }
        let page_host = match parse_url(url) {
            None => return None,
            Some(p) => match p.host {
                None => return None,
                Some(h) => h,
            },
        };
        let page_root = match domain_root(list, page_host.as_str()) {
            None => return None,
            Some(root) => root,
        };
        let ghost pr = opt_view(page_root);
        assert(hs == page_hrefs(body@));
        assert(page_root_outcome(list_text, url@) == Some(pr));
        let mut k: usize = 0;
        assert(hs.take(0) =~= Seq::<Seq<char>>::empty());
        while k < hrefs.len()
            invariant
                hs == views(hrefs@),
                pr == opt_view(page_root),
                list_text == list.source(),
                hs == page_hrefs(body@),
                hs.len() > 0,
                page_root_outcome(list_text, url@) == Some(pr),
                k <= hrefs.len(),
                links_outcome(list_text, pr, hs.take(k as int)) == Some(Seq::new(externals@.len(), |i: int| (externals@[i].0@, externals@[i].1@))),
            decreases hrefs.len() - k,
        {
            let ghost before = Seq::new(externals@.len(), |i: int| (externals@[i].0@, externals@[i].1@));
            proof {
                assert(hs.take(k + 1).drop_last() =~= hs.take(k as int));
                assert(hs.take(k + 1).last() == hrefs@[k as int]@);
            }
            match parse_url(hrefs[k].as_str()) {
                None => {},
                Some(p) => match p.host {
                    None => {},
                    Some(host) => match domain_root(list, host.as_str()) {
                        None => {
                            proof {
                                assert(url_parts(hs.take(k + 1).last()) == Some((p.serialization@, Some(host@), p.path@)));
                                assert(href_outcome(list_text, pr, hs.take(k + 1).last()) is None);
                                assert(links_outcome(list_text, pr, hs.take(k + 1)) is None);
                                lemma_links_outcome_none(list_text, pr, hs, k + 1);
                            }
                            return None;
                        },
                        Some(root) => {
                            if !same_root(&root, &page_root) {
                                match root {
                                    None => {
                                        proof {
                                            assert(url_parts(hs.take(k + 1).last()) == Some((p.serialization@, Some(host@), p.path@)));
                                            assert(href_outcome(list_text, pr, hs.take(k + 1).last()) is None);
                                            assert(links_outcome(list_text, pr, hs.take(k + 1)) is None);
                                            lemma_links_outcome_none(list_text, pr, hs, k + 1);
                                        }
                                        return None;
                                    },
                                    Some(r) => {
                                        let ghost rv = r@;
                                        let ghost sv = p.serialization@;
                                        proof {
                                            assert(url_parts(hs.take(k + 1).last()) == Some((sv, Some(host@), p.path@)));
                                            assert(href_outcome(list_text, pr, hs.take(k + 1).last()) == Some(Some((rv, sv))));
                                        }
                                        externals.push((r, p.serialization));
                                        assert(Seq::new(externals@.len(), |i: int| (externals@[i].0@, externals@[i].1@)) =~= before.push((rv, sv)));
                                    },
                                }
                            }
                        },
                    },
                },
            }
            k = k + 1;
        }
        assert(hs.take(hrefs.len() as int) =~= hs);
        Some(Self::collect_external_links(&externals, website_id))
    }
}

/// The lowercased texts of a list of metadata.
pub open spec fn lowercased_texts(ms: Seq<Metadata>) -> Seq<Seq<char>> {
    Seq::new(ms.len(), |i: int| lowercase(ms[i].metadata_text@))
}

/// What the crawler does with a page, given how many stored pages have its
/// address.
#[derive(Debug, Clone, Copy, PartialEq, Eq, Structural)]
pub enum PageAction {
    /// No page with this address is stored: extract and store it.
    Save,
    /// The page is stored: extract it again and update the stored one.
    Update,
}

/// What the genre classifier answered: not a list, or a list whose
/// entries are strings (`Some`) or not (`None`).
#[derive(Debug, Clone)]
pub enum ClassifierReply {
    NotAnArray,
    Array(Vec<Option<String>>),
}

/// Why the classifier's answer gave no genre.
#[derive(Debug, Clone, Copy, PartialEq, Eq, Structural)]
pub enum GenreError {
    /// The classifier did not answer with a list.
    NoResponse,
    /// The classifier answered with an empty list.
    EmptyArray,
    /// The first entry of the answer is not a string.
    NotAString,
}

impl GenreError {
    /// The text that describes the error.
    pub fn message(&self) -> (m: &'static str)
        ensures
            *self == GenreError::NoResponse ==> m@ == "Classifier does not respond."@,
            *self == GenreError::EmptyArray ==> m@ == "Classifier returned an empty array."@,
            *self == GenreError::NotAString ==> m@ == "Classifier did not return an array of strings."@,
    {
        match self {
            GenreError::NoResponse => "Classifier does not respond.",
            GenreError::EmptyArray => "Classifier returned an empty array.",
            GenreError::NotAString => "Classifier did not return an array of strings.",
        }
    }
}

impl Crawler {
    /// The genre of a page when the classifier cannot be asked: the first
    /// metadata value that names an Open Graph type decides (`og:article`,
    /// `og:book`, `og:website`, `og:profile`); else keywords of the page's
    /// text decide between `product`, `article` and `default`. Case is
    /// ignored.
    pub fn website_genre_offline_classification(body: &str, meta: &Vec<Metadata>) -> (g: String)
        ensures
            g@ == offline_genre(lowercase(body@), lowercased_texts(meta@)),
    {
        let body_lc = to_lowercase(body);
        let mut metas_lc: Vec<String> = Vec::new();
        let mut i: usize = 0;
        while i < meta.len()
            invariant
                i <= meta.len(),
                metas_lc@.len() == i,
                forall|k: int| 0 <= k < i ==> metas_lc@[k]@ == lowercase(meta@[k].metadata_text@),
            decreases meta.len() - i,
        {
            metas_lc.push(to_lowercase(meta[i].metadata_text.as_str()));
            i = i + 1;
        }
        assert(views(metas_lc@) =~= lowercased_texts(meta@));
        genre_of_lowercase(body_lc.as_str(), &metas_lc)
    }

    /// The genre of a page from the classifier's answer: its first entry,
    /// which must be a string.
    pub fn genre_from_reply(reply: &ClassifierReply) -> (r: Result<String, GenreError>)
        ensures
            match reply {
                ClassifierReply::NotAnArray => r == Err::<String, GenreError>(GenreError::NoResponse),
                ClassifierReply::Array(v) => if v@.len() == 0 {
                    r == Err::<String, GenreError>(GenreError::EmptyArray)
                } else {
                    match v@[0] {
                        Some(s) => r matches Ok(g) && g@ == s@,
                        None => r == Err::<String, GenreError>(GenreError::NotAString),
                    }
                },
            },
    {
        match reply {
            ClassifierReply::NotAnArray => Err(GenreError::NoResponse),
            ClassifierReply::Array(v) => {
                if v.len() == 0 {
                    Err(GenreError::EmptyArray)
                } else {
                    match &v[0] {
                        Some(s) => Ok(s.clone()),
                        None => Err(GenreError::NotAString),
                    }
                }
            },
        }
    }

    /// Whether a page is stored for the first time or updated, given the
    /// stored pages with its address; addresses are unique, so there is at
    /// most one.
    pub fn page_action(saved: usize) -> (a: PageAction)
        requires
            saved <= 1,
        ensures
            a == (if saved == 0 { PageAction::Save } else { PageAction::Update }),
    {
        if saved == 0 {
            PageAction::Save
        } else {
            PageAction::Update
        }
    }

    /// Metadata extracted again for a stored page: the same texts, without
    /// ids, tied to the page.
    pub fn modify_meta(&self, extracted_meta: Vec<Metadata>, website_id: Option<u32>) -> (ms: Vec<Metadata>)
        ensures
            meta_texts(ms@) == meta_texts(extracted_meta@),
            all_fresh_for(ms@, website_id),
    {
        let mut ms: Vec<Metadata> = Vec::new();
        let mut i: usize = 0;
        while i < extracted_meta.len()
            invariant
                i <= extracted_meta.len(),
                meta_texts(ms@) == meta_texts(extracted_meta@).take(i as int),
                all_fresh_for(ms@, website_id),
            decreases extracted_meta.len() - i,
        {
            let ghost old_texts = meta_texts(ms@);
            let text = extracted_meta[i].metadata_text.clone();
            ms.push(Metadata { id: None, website_id, metadata_text: text });
            assert(meta_texts(ms@) =~= old_texts.push(extracted_meta@[i as int].metadata_text@));
            assert(meta_texts(ms@) =~= meta_texts(extracted_meta@).take(i + 1));
            i = i + 1;
        }
        assert(meta_texts(extracted_meta@).take(extracted_meta.len() as int) =~= meta_texts(extracted_meta@));
        ms
    }

    /// External links extracted again for a stored page: each link keeps its
    /// id and domain, and its tie to the page is made anew (no id of its own,
    /// the page's id, the link's id).
    pub fn modify_ext_links(&self, extracted_ext_links: Vec<(ExternalLink, WebsiteRefExtLink)>, website_id: Option<u32>) -> (ls: Vec<(ExternalLink, WebsiteRefExtLink)>)
        ensures
            ls@.len() == extracted_ext_links@.len(),
            forall|i: int| 0 <= i < ls@.len() ==> {
                &&& (#[trigger] ls@[i]).0.id == extracted_ext_links@[i].0.id
                &&& ls@[i].0.url@ == extracted_ext_links@[i].0.url@
                &&& ls@[i].1.id is None
                &&& ls@[i].1.website_id == website_id
                &&& ls@[i].1.ext_link_id == extracted_ext_links@[i].1.ext_link_id
            },
    {
        let mut ls: Vec<(ExternalLink, WebsiteRefExtLink)> = Vec::new();
        let mut i: usize = 0;
        while i < extracted_ext_links.len()
            invariant
                i <= extracted_ext_links.len(),
                ls@.len() == i,
                forall|k: int| 0 <= k < i ==> {
                    &&& (#[trigger] ls@[k]).0.id == extracted_ext_links@[k].0.id
                    &&& ls@[k].0.url@ == extracted_ext_links@[k].0.url@
                    &&& ls@[k].1.id is None
                    &&& ls@[k].1.website_id == website_id
                    &&& ls@[k].1.ext_link_id == extracted_ext_links@[k].1.ext_link_id
                },
            decreases extracted_ext_links.len() - i,
        {
            let e_l = &extracted_ext_links[i];
            ls.push((
                ExternalLink { id: e_l.0.id, url: e_l.0.url.clone() },
                WebsiteRefExtLink { id: None, website_id, ext_link_id: e_l.1.ext_link_id },
            ));
            i = i + 1;
        }
        ls
    }

    /// Metadata made from texts, without ids, tied to the given page.
    pub fn metadata_from_texts(texts: &Vec<String>, website_id: Option<u32>) -> (ms: Vec<Metadata>)
        ensures
            meta_texts(ms@) == views(texts@),
            all_fresh_for(ms@, website_id),
    {
        let mut ms: Vec<Metadata> = Vec::new();
        let mut i: usize = 0;
        while i < texts.len()
            invariant
                i <= texts.len(),
                meta_texts(ms@) == views(texts@).take(i as int),
                all_fresh_for(ms@, website_id),
            decreases texts.len() - i,
        {
            let ghost old_texts = meta_texts(ms@);
            let text = texts[i].clone();
            ms.push(Metadata { id: None, metadata_text: text, website_id });
            assert(meta_texts(ms@) =~= old_texts.push(texts@[i as int]@));
            assert(meta_texts(ms@) =~= views(texts@).take(i + 1));
            i = i + 1;
        }
        assert(views(texts@).take(texts.len() as int) =~= views(texts@));
        ms
    }

    /// External links made from domains, without ids, tied to the given page.
    pub fn ext_links_from_urls(urls: &Vec<String>, website_id: Option<u32>) -> (ls: Vec<(ExternalLink, WebsiteRefExtLink)>)
        ensures
            link_urls(ls@) == views(urls@),
            fresh_links_for(ls@, website_id),
    {
        let mut ls: Vec<(ExternalLink, WebsiteRefExtLink)> = Vec::new();
        let mut i: usize = 0;
        while i < urls.len()
            invariant
                i <= urls.len(),
                link_urls(ls@) == views(urls@).take(i as int),
                fresh_links_for(ls@, website_id),
            decreases urls.len() - i,
        {
            let ghost old_urls = link_urls(ls@);
            let url = urls[i].clone();
            ls.push((ExternalLink { id: None, url }, WebsiteRefExtLink { id: None, website_id, ext_link_id: None }));
            assert(link_urls(ls@) =~= old_urls.push(urls@[i as int]@));
            assert(link_urls(ls@) =~= views(urls@).take(i + 1));
            i = i + 1;
        }
        assert(views(urls@).take(urls.len() as int) =~= views(urls@));
        ls
    }

    /// Ties every metadata of a page to the page's id.
    pub fn set_website_id(meta: &mut Vec<Metadata>, website_id: Option<u32>)
        ensures
            final(meta)@.len() == old(meta)@.len(),
            forall|i: int| 0 <= i < final(meta)@.len() ==> {
                &&& (#[trigger] final(meta)@[i]).id == old(meta)@[i].id
                &&& final(meta)@[i].metadata_text == old(meta)@[i].metadata_text
                &&& final(meta)@[i].website_id == website_id
            },
    {
        let mut i: usize = 0;
        while i < meta.len()
            invariant
                i <= meta.len(),
                meta@.len() == old(meta)@.len(),
                forall|k: int| 0 <= k < meta@.len() ==> {
                    &&& (#[trigger] meta@[k]).id == old(meta)@[k].id
                    &&& meta@[k].metadata_text == old(meta)@[k].metadata_text
                    &&& (k < i ==> meta@[k].website_id == website_id)
                    &&& (k >= i ==> meta@[k].website_id == old(meta)@[k].website_id)
                },
            decreases meta.len() - i,
        {
            let id = meta[i].id;
            let text = meta[i].metadata_text.clone();
            meta.set(i, Metadata { id, metadata_text: text, website_id });
            i = i + 1;
        }
    }
}

proof fn lemma_dedup_props(s: Seq<Seq<char>>)
    ensures
        forall|i: int, j: int| 0 <= i < dedup(s).len() && 0 <= j < dedup(s).len() && i != j ==> dedup(s)[i] != dedup(s)[j],
        forall|x: Seq<char>| #[trigger] dedup(s).contains(x) <==> s.contains(x),
    decreases s.len(),
{
    if s.len() > 0 {
        lemma_dedup_props(s.drop_last());
        let d = dedup(s.drop_last());
        let p = s.drop_last();
        assert forall|x: Seq<char>| #[trigger] dedup(s).contains(x) <==> s.contains(x) by {
            if p.contains(x) {
                let i = choose|i: int| 0 <= i < p.len() && p[i] == x;
                assert(s[i] == x);
            }
            if s.contains(x) {
                let i = choose|i: int| 0 <= i < s.len() && s[i] == x;
                if i < p.len() {
                    assert(p[i] == x);
                }
            }
            if d.push(s.last()).contains(x) {
                let i = choose|i: int| 0 <= i < d.push(s.last()).len() && d.push(s.last())[i] == x;
                if i < d.len() {
                    assert(d[i] == x);
                }
            }
            if d.contains(x) {
                let i = choose|i: int| 0 <= i < d.len() && d[i] == x;
                assert(d.push(s.last())[i] == x);
            }
            assert(d.push(s.last())[d.len() as int] == s.last());
            assert(s[s.len() - 1] == s.last());
        }
    }
}

/// The external links extracted from a page name each domain once, and
/// name exactly the domains that the page links to outside its own domain.
pub proof fn extracted_domains_distinct(x: ExtractedLinks, ls: Seq<(Seq<char>, Seq<char>)>, website_id: Option<u32>)
    requires
        extracted_matches(x, ls, website_id),
    ensures
        forall|i: int, j: int| 0 <= i < x.links@.len() && 0 <= j < x.links@.len() && i != j ==> x.links@[i].0.url@ != x.links@[j].0.url@,
        forall|d: Seq<char>| #[trigger] link_urls(x.links@).contains(d) <==> link_roots(ls).contains(d),
{
    lemma_dedup_props(link_roots(ls));
    assert forall|i: int, j: int| 0 <= i < x.links@.len() && 0 <= j < x.links@.len() && i != j implies x.links@[i].0.url@ != x.links@[j].0.url@ by {
        assert(link_urls(x.links@)[i] == x.links@[i].0.url@);
        assert(link_urls(x.links@)[j] == x.links@[j].0.url@);
    }
}

proof fn lemma_links_outcome_external(list_text: Seq<char>, page_root: Option<Seq<char>>, hrefs: Seq<Seq<char>>)
    ensures
        links_outcome(list_text, page_root, hrefs) matches Some(ls) ==> forall|i: int| 0 <= i < ls.len() ==> Some(#[trigger] ls[i].0) != page_root,
    decreases hrefs.len(),
{
    if hrefs.len() > 0 {
        lemma_links_outcome_external(list_text, page_root, hrefs.drop_last());
    }
}

/// No link is counted as external when it leads to the page's own
/// registrable domain.
pub proof fn external_links_leave_the_site(body: Seq<char>, url: Seq<char>, list_text: Seq<char>)
    ensures
        external_links_outcome(body, url, list_text) matches Some(ls) ==> page_root_outcome(list_text, url) matches Some(pr) ==> forall|i: int|
            0 <= i < ls.len() ==> Some(#[trigger] ls[i].0) != pr,
{
    if let Some(pr) = page_root_outcome(list_text, url) {
        lemma_links_outcome_external(list_text, pr, page_hrefs(body));
    }
}

/// The external links of a page never name the page's own registrable
/// domain, as `extract_base_url` reads it off the page's address.
pub proof fn external_links_exclude_base_url(body: Seq<char>, url: Seq<char>, list_text: Seq<char>)
    ensures
        external_links_outcome(body, url, list_text) matches Some(ls) ==> base_url_outcome(list_text, url) matches Some(Ok(base))
            ==> forall|i: int| 0 <= i < ls.len() ==> #[trigger] ls[i].0 != base,
{
    external_links_leave_the_site(body, url, list_text);
}


proof fn lemma_joined_laid_out(ps: Seq<Seq<char>>, sep: Seq<char>)
    ensures
        separated_by(joined(ps, sep), ps, sep),
    decreases ps.len(),
{
    if ps.len() == 1 {
        assert(ps =~= seq![ps[0]]);
        lemma_separated_single(ps[0], sep);
    } else if ps.len() > 1 {
        lemma_joined_laid_out(ps.drop_last(), sep);
        assert(ps =~= ps.drop_last().push(ps.last()));
        lemma_separated_push(joined(ps.drop_last(), sep), ps.drop_last(), sep, ps.last());
    }
}

/// The text of a page holds every text node that is not blank once trimmed:
/// the trimmed non-empty nodes in document order, with `", "` between each
/// two and nothing else, however many there are.
pub proof fn page_text_holds_every_node(nodes: Seq<Seq<char>>)
    ensures
        separated_by(page_text(nodes), nodes.map_values(|t: Seq<char>| trimmed(t)).filter(|t: Seq<char>| t.len() > 0), ", "@),
{
    let tr = trimmed_all(nodes);
    assert(tr =~= nodes.map_values(|t: Seq<char>| trimmed(t)));
    drop_empty_keeps_nonempty(tr);
    lemma_joined_laid_out(drop_empty(tr), ", "@);
}

/// `href` is a URL whose host has the registrable domain `root`, other than
/// the page's own `page_root`, and `address` is its serialization.
pub open spec fn points_outside(list_text: Seq<char>, page_root: Option<Seq<char>>, href: Seq<char>, root: Seq<char>, address: Seq<char>) -> bool {
    url_parts(href) matches Some((a, Some(host), _)) && a == address && registrable_domain(list_text, host) == Some(
        Some(root),
    ) && Some(root) != page_root
}

/// Some link among `hrefs` leads outside the page to the domain `root`
/// through the address `address`.
pub open spec fn some_link_leads_to(list_text: Seq<char>, page_root: Option<Seq<char>>, hrefs: Seq<Seq<char>>, root: Seq<char>, address: Seq<char>) -> bool {
    exists|i: int| 0 <= i < hrefs.len() && #[trigger] points_outside(list_text, page_root, hrefs[i], root, address)
}

/// Some link among `hrefs` leads outside the page through the address `address`.
pub open spec fn some_link_has_address(list_text: Seq<char>, page_root: Option<Seq<char>>, hrefs: Seq<Seq<char>>, address: Seq<char>) -> bool {
    exists|i: int, root: Seq<char>| 0 <= i < hrefs.len() && #[trigger] points_outside(list_text, page_root, hrefs[i], root, address)
}

/// Some link among `hrefs` leads outside the page to the domain `root`.
pub open spec fn some_link_has_domain(list_text: Seq<char>, page_root: Option<Seq<char>>, hrefs: Seq<Seq<char>>, root: Seq<char>) -> bool {
    exists|i: int, address: Seq<char>| 0 <= i < hrefs.len() && #[trigger] points_outside(list_text, page_root, hrefs[i], root, address)
}

proof fn lemma_links_outcome_exact(list_text: Seq<char>, pr: Option<Seq<char>>, hs: Seq<Seq<char>>, ls: Seq<(Seq<char>, Seq<char>)>)
    requires
        links_outcome(list_text, pr, hs) == Some(ls),
    ensures
        forall|i: int, root: Seq<char>, address: Seq<char>|
            0 <= i < hs.len() && #[trigger] points_outside(list_text, pr, hs[i], root, address) ==> ls.contains((root, address)),
        forall|j: int| 0 <= j < ls.len() ==> #[trigger] some_link_leads_to(list_text, pr, hs, ls[j].0, ls[j].1),
    decreases hs.len(),
{
    if hs.len() > 0 {
        let p = hs.drop_last();
        let lp = links_outcome(list_text, pr, p)->0;
        lemma_links_outcome_exact(list_text, pr, p, lp);
        let h = hs.last();
        assert forall|i: int, root: Seq<char>, address: Seq<char>|
            0 <= i < hs.len() && #[trigger] points_outside(list_text, pr, hs[i], root, address) implies ls.contains((root, address)) by {
            if i < p.len() {
                assert(p[i] == hs[i]);
                assert(lp.contains((root, address)));
                let k = choose|k: int| 0 <= k < lp.len() && lp[k] == (root, address);
                if ls != lp {
                    assert(ls == lp.push(ls.last()));
                    assert(ls[k] == lp[k]);
                }
            } else {
                assert(hs[i] == h);
                assert(href_outcome(list_text, pr, h) == Some(Some((root, address))));
                assert(ls == lp.push((root, address)));
                assert(ls[lp.len() as int] == (root, address));
            }
        }
        assert forall|j: int| 0 <= j < ls.len() implies #[trigger] some_link_leads_to(list_text, pr, hs, ls[j].0, ls[j].1) by {
            if j < lp.len() {
                if ls != lp {
                    assert(ls == lp.push(ls.last()));
                }
                assert(ls[j] == lp[j]);
                assert(some_link_leads_to(list_text, pr, p, lp[j].0, lp[j].1));
                let i = choose|i: int| 0 <= i < p.len() && #[trigger] points_outside(list_text, pr, p[i], lp[j].0, lp[j].1);
                assert(hs[i] == p[i]);
                assert(points_outside(list_text, pr, hs[i], ls[j].0, ls[j].1));
            } else {
                let n = hs.len() - 1;
                assert(hs[n] == h);
                assert(points_outside(list_text, pr, hs[n], ls[j].0, ls[j].1));
            }
        }
    } else {
        assert(ls.len() == 0);
    }
}

/// The links of a page report every `<a href>` that leads outside the
/// page's registrable domain, whatever the path of its address: its domain
/// is among the links and its address among those to crawl. And they report
/// nothing else: every address to crawl and every domain comes from such an
/// `href`.
pub proof fn every_outside_link_is_reported(body: Seq<char>, url: Seq<char>, list_text: Seq<char>, x: ExtractedLinks, website_id: Option<u32>)
    requires
        external_links_outcome(body, url, list_text) is Some,
        extracted_matches(x, external_links_outcome(body, url, list_text)->0, website_id),
    ensures
        page_root_outcome(list_text, url) matches Some(pr) ==> {
            &&& forall|i: int, root: Seq<char>, address: Seq<char>|
                0 <= i < page_hrefs(body).len() && #[trigger] points_outside(list_text, pr, page_hrefs(body)[i], root, address)
                ==> link_urls(x.links@).contains(root) && views(x.to_crawl@).contains(address)
            &&& forall|j: int| 0 <= j < x.to_crawl@.len() ==> #[trigger] some_link_has_address(list_text, pr, page_hrefs(body), x.to_crawl@[j]@)
            &&& forall|j: int| 0 <= j < x.links@.len() ==> #[trigger] some_link_has_domain(list_text, pr, page_hrefs(body), x.links@[j].0.url@)
        },
        page_hrefs(body).len() == 0 ==> x.links@.len() == 0 && x.to_crawl@.len() == 0,
{
    let ls = external_links_outcome(body, url, list_text)->0;
    let hs = page_hrefs(body);
    lemma_dedup_props(link_roots(ls));
    if hs.len() == 0 {
        assert(ls.len() == 0);
        assert(dedup(link_roots(ls)).len() == 0);
        assert(link_urls(x.links@).len() == 0);
        assert(views(x.to_crawl@).len() == 0);
        assert(x.to_crawl@.len() == 0);
        assert(x.links@.len() == 0);
    }
    if let Some(pr) = page_root_outcome(list_text, url) {
        if hs.len() > 0 {
            lemma_links_outcome_exact(list_text, pr, hs, ls);
            assert forall|i: int, root: Seq<char>, address: Seq<char>|
                0 <= i < hs.len() && #[trigger] points_outside(list_text, pr, hs[i], root, address)
                implies link_urls(x.links@).contains(root) && views(x.to_crawl@).contains(address) by {
                let k = choose|k: int| 0 <= k < ls.len() && ls[k] == (root, address);
                assert(link_roots(ls)[k] == root);
                assert(link_roots(ls).contains(root));
                assert(link_addresses(ls)[k] == address);
            }
            assert forall|j: int| 0 <= j < x.to_crawl@.len() implies #[trigger] some_link_has_address(list_text, pr, hs, x.to_crawl@[j]@) by {
                assert(views(x.to_crawl@)[j] == x.to_crawl@[j]@);
                assert(views(x.to_crawl@).len() == x.to_crawl@.len());
                assert(link_addresses(ls).len() == ls.len());
                assert(j < ls.len());
                assert(link_addresses(ls)[j] == ls[j].1);
                assert(some_link_leads_to(list_text, pr, hs, ls[j].0, ls[j].1));
                let i = choose|i: int| 0 <= i < hs.len() && #[trigger] points_outside(list_text, pr, hs[i], ls[j].0, ls[j].1);
                assert(points_outside(list_text, pr, hs[i], ls[j].0, x.to_crawl@[j]@));
            }
            assert forall|j: int| 0 <= j < x.links@.len() implies #[trigger] some_link_has_domain(list_text, pr, hs, x.links@[j].0.url@) by {
                assert(link_urls(x.links@)[j] == x.links@[j].0.url@);
                assert(dedup(link_roots(ls))[j] == x.links@[j].0.url@);
                assert(dedup(link_roots(ls)).contains(x.links@[j].0.url@));
                assert(link_roots(ls).contains(x.links@[j].0.url@));
                let k = choose|k: int| 0 <= k < link_roots(ls).len() && link_roots(ls)[k] == x.links@[j].0.url@;
                assert(ls[k].0 == x.links@[j].0.url@);
                assert(some_link_leads_to(list_text, pr, hs, ls[k].0, ls[k].1));
                let i = choose|i: int| 0 <= i < hs.len() && #[trigger] points_outside(list_text, pr, hs[i], ls[k].0, ls[k].1);
                assert(points_outside(list_text, pr, hs[i], x.links@[j].0.url@, ls[k].1));
            }
        }
    }
}


/// The present values are those of the entries that hold one, in order.
pub proof fn somes_keeps_present_values(v: Seq<Option<Seq<char>>>)
    ensures
        somes(v) == v.filter(|o: Option<Seq<char>>| o is Some).map_values(|o: Option<Seq<char>>| o->0),
    decreases v.len(),
{
    reveal_with_fuel(Seq::filter, 1);
    if v.len() > 0 {
        somes_keeps_present_values(v.drop_last());
        let f = v.drop_last().filter(|o: Option<Seq<char>>| o is Some);
        if v.last() is Some {
            assert(f.push(v.last()).map_values(|o: Option<Seq<char>>| o->0)
                =~= f.map_values(|o: Option<Seq<char>>| o->0).push(v.last()->0));
        }
    }
}

/// The metadata texts of the groups, one group after the other, are the
/// groups flattened.
pub proof fn flatten_concatenates_groups(gs: Seq<Seq<Seq<char>>>)
    ensures
        flatten(gs) == gs.flatten(),
    decreases gs.len(),
{
    if gs.len() > 0 {
        flatten_concatenates_groups(gs.drop_last());
        gs.drop_last().lemma_flatten_push(gs.last());
        assert(gs.drop_last().push(gs.last()) =~= gs);
    }
}

} // verus!
