//! Collecting page addresses from the sitemaps of a set of sites. The
//! traversal starts at `https://<site>/sitemap.xml` and
//! `http://<site>/sitemap.xml` for each site and then follows the sitemap
//! index entries it finds, fetching each sitemap at most once. Fetching is
//! done by the caller: `next_fetch` says what to fetch next and
//! `record_sitemap` takes what was fetched.

use vstd::prelude::*;
use vstd::string::StringExecFns;
use crate::domain::{parse_url, url_parts};
use crate::text::{contains_string, views};

verus! {

/// One entry of a sitemap document.
#[derive(Debug, Clone)]
pub enum SitemapEntry {
    /// A page entry, with its location if that is a valid URL.
    Page(Option<String>),
    /// An index entry pointing at another sitemap, with its location if that
    /// is a valid URL.
    Index(Option<String>),
    /// A part of the document that could not be read.
    Invalid,
}

/// The view of a sitemap entry.
pub enum EntryView {
    Page(Option<Seq<char>>),
    Index(Option<Seq<char>>),
    Invalid,
}

/// The view of an optional string.
pub open spec fn loc_view(o: Option<String>) -> Option<Seq<char>> {
    match o {
        Some(s) => Some(s@),
        None => None,
    }
}

/// The view of one entry.
pub open spec fn entry_view(e: SitemapEntry) -> EntryView {
    match e {
        SitemapEntry::Page(l) => EntryView::Page(loc_view(l)),
        SitemapEntry::Index(l) => EntryView::Index(loc_view(l)),
        SitemapEntry::Invalid => EntryView::Invalid,
    }
}

/// The views of a list of entries.
pub open spec fn entries_view(es: Seq<SitemapEntry>) -> Seq<EntryView> {
    Seq::new(es.len(), |i: int| entry_view(es[i]))
}

/// Name for the entries that `sitemap::reader::SiteMapReader` reads from a
/// sitemap document, in document order.
pub uninterp spec fn sitemap_entries(text: Seq<char>) -> Seq<EntryView>;

/// Reads a sitemap document with `sitemap::reader::SiteMapReader`: each
/// `<url>` entry gives its location (`loc.get_url()`, as text), each
/// `<sitemap>` entry likewise, each read error an invalid entry.
#[verifier::external_body]
pub(crate) fn parse_sitemap(text: &str) -> (r: Vec<SitemapEntry>)
    ensures
        entries_view(r@) == sitemap_entries(text@),
{
    let mut entries = Vec::new();
    for entity in sitemap::reader::SiteMapReader::new(text.as_bytes()) {
        match entity {
            sitemap::reader::SiteMapEntity::Url(u) => match u.loc.get_url() {
                Some(l) => entries.push(SitemapEntry::Page(Some(l.to_string()))),
                None => entries.push(SitemapEntry::Page(None)),
            },
            sitemap::reader::SiteMapEntity::SiteMap(m) => match m.loc.get_url() {
                Some(l) => entries.push(SitemapEntry::Index(Some(l.to_string()))),
                None => entries.push(SitemapEntry::Index(None)),
            },
            sitemap::reader::SiteMapEntity::Err(_) => entries.push(SitemapEntry::Invalid),
        }
    }
    entries
}

/// The state of a traversal: the start addresses and how many of them were
/// handed out, the locations of index entries still to visit (last found,
/// first visited), the sitemaps handed out for fetching and the page
/// addresses found.
pub struct CrawlState {
    pub initial: Seq<Seq<char>>,
    pub next_initial: nat,
    pub stack: Seq<Option<Seq<char>>>,
    pub fetched: Seq<Seq<char>>,
    pub urls: Seq<Seq<char>>,
}

/// `s` with `x` added at the end unless it is there already.
pub open spec fn insert(s: Seq<Seq<char>>, x: Seq<char>) -> Seq<Seq<char>> {
    if s.contains(x) {
        s
    } else {
        s.push(x)
    }
}

/// No member occurs twice.
pub open spec fn distinct(s: Seq<Seq<char>>) -> bool {
    forall|i: int, j: int| 0 <= i < s.len() && 0 <= j < s.len() && i != j ==> s[i] != s[j]
}

/// The state's own invariant.
pub open spec fn state_wf(st: CrawlState) -> bool {
    &&& st.next_initial <= st.initial.len()
    &&& distinct(st.fetched)
    &&& distinct(st.urls)
}

/// The two start addresses of each site.
pub open spec fn start_addresses(sites: Seq<Seq<char>>) -> Seq<Seq<char>>
    decreases sites.len(),
{
    if sites.len() == 0 {
        Seq::empty()
    } else {
        start_addresses(sites.drop_last()).push("https://"@ + sites.last() + "/sitemap.xml"@).push(
            "http://"@ + sites.last() + "/sitemap.xml"@,
        )
    }
}

/// What `next_fetch` does: hand out the next start address; once they are
/// all handed out, take index locations off the stack, skipping those
/// without a location and those already fetched, and hand out the first
/// other one; hand out nothing once the stack is empty. Whatever is handed
/// out counts as fetched.
pub open spec fn next_step(st: CrawlState) -> (CrawlState, Option<Seq<char>>)
    decreases st.stack.len(),
{
    if st.next_initial < st.initial.len() {
        let u = st.initial[st.next_initial as int];
        (CrawlState { next_initial: st.next_initial + 1, fetched: insert(st.fetched, u), ..st }, Some(u))
    } else if st.stack.len() == 0 {
        (st, None)
    } else {
        let rest = CrawlState { stack: st.stack.drop_last(), ..st };
        match st.stack.last() {
            Some(u) => if st.fetched.contains(u) {
                next_step(rest)
            } else {
                (CrawlState { fetched: st.fetched.push(u), ..rest }, Some(u))
            },
            None => next_step(rest),
        }
    }
}

/// A sitemap has no page entry without a valid location.
pub open spec fn all_pages_located(es: Seq<EntryView>) -> bool {
    forall|i: int| 0 <= i < es.len() ==> !(#[trigger] es[i] matches EntryView::Page(None))
}

/// What recording one entry does: a page address joins the found ones
/// (once), an index location is pushed on the stack, anything else is
/// ignored.
pub open spec fn record_one(st: CrawlState, e: EntryView) -> CrawlState {
    match e {
        EntryView::Page(Some(u)) => CrawlState { urls: insert(st.urls, u), ..st },
        EntryView::Page(None) => st,
        EntryView::Index(l) => CrawlState { stack: st.stack.push(l), ..st },
        EntryView::Invalid => st,
    }
}

/// What recording the entries of a sitemap does, entry after entry.
pub open spec fn record(st: CrawlState, es: Seq<EntryView>) -> CrawlState
    decreases es.len(),
{
    if es.len() == 0 {
        st
    } else {
        record_one(record(st, es.drop_last()), es.last())
    }
}

/// A traversal of sitemaps in progress.
pub struct SitemapCrawl {
    initial: Vec<String>,
    next_initial: usize,
    stack: Vec<Option<String>>,
    fetched: Vec<String>,
    urls: Vec<String>,
}

/// The views of optional strings.
pub open spec fn loc_views(v: Seq<Option<String>>) -> Seq<Option<Seq<char>>> {
    Seq::new(v.len(), |i: int| loc_view(v[i]))
}

proof fn lemma_insert_distinct(s: Seq<Seq<char>>, x: Seq<char>)
    requires
        distinct(s),
    ensures
        distinct(insert(s, x)),
        insert(s, x).contains(x),
        forall|y: Seq<char>| s.contains(y) ==> insert(s, x).contains(y),
        forall|y: Seq<char>| #[trigger] insert(s, x).contains(y) ==> s.contains(y) || y == x,
{
    if !s.contains(x) {
        assert(s.push(x)[s.len() as int] == x);
        assert forall|y: Seq<char>| s.contains(y) implies insert(s, x).contains(y) by {
            let i = choose|i: int| 0 <= i < s.len() && s[i] == y;
            assert(s.push(x)[i] == y);
        }
        assert forall|y: Seq<char>| #[trigger] insert(s, x).contains(y) implies s.contains(y) || y == x by {
            let i = choose|i: int| 0 <= i < s.push(x).len() && s.push(x)[i] == y;
            if i < s.len() {
                assert(s[i] == y);
            }
        }
    }
}

proof fn lemma_record_wf(st: CrawlState, es: Seq<EntryView>)
    requires
        state_wf(st),
    ensures
        state_wf(record(st, es)),
        record(st, es).initial == st.initial,
        record(st, es).next_initial == st.next_initial,
        record(st, es).fetched == st.fetched,
    decreases es.len(),
{
    if es.len() > 0 {
        lemma_record_wf(st, es.drop_last());
        let r = record(st, es.drop_last());
        match es.last() {
            EntryView::Page(Some(u)) => {
                lemma_insert_distinct(r.urls, u);
            },
            _ => {},
        }
    }
}

proof fn lemma_next_step_wf(st: CrawlState)
    requires
        state_wf(st),
    ensures
        state_wf(next_step(st).0),
        next_step(st).0.initial == st.initial,
        next_step(st).0.urls == st.urls,
        st.next_initial >= st.initial.len() ==> next_step(st).0.next_initial == st.next_initial,
    decreases st.stack.len(),
{
    if st.next_initial < st.initial.len() {
        lemma_insert_distinct(st.fetched, st.initial[st.next_initial as int]);
    } else if st.stack.len() > 0 {
        let rest = CrawlState { stack: st.stack.drop_last(), ..st };
        match st.stack.last() {
            Some(u) => if st.fetched.contains(u) {
                lemma_next_step_wf(rest);
            } else {
                lemma_insert_distinct(st.fetched, u);
            },
            None => lemma_next_step_wf(rest),
        }
    }
}

impl SitemapCrawl {
    /// The state of the traversal.
    pub closed spec fn state(self) -> CrawlState {
        CrawlState {
            initial: views(self.initial@),
            next_initial: self.next_initial as nat,
            stack: loc_views(self.stack@),
            fetched: views(self.fetched@),
            urls: views(self.urls@),
        }
    }

    /// A traversal that starts at the sitemaps of the given sites.
    pub fn new(base_urls: &Vec<String>) -> (c: SitemapCrawl)
        ensures
            c.state() == (CrawlState {
                initial: start_addresses(views(base_urls@)),
                next_initial: 0,
                stack: Seq::empty(),
                fetched: Seq::empty(),
                urls: Seq::empty(),
            }),
            state_wf(c.state()),
    {
        let mut initial: Vec<String> = Vec::new();
        let mut i: usize = 0;
        let ghost sites = views(base_urls@);
        assert(sites.take(0) =~= Seq::<Seq<char>>::empty());
        while i < base_urls.len()
            invariant
                sites == views(base_urls@),
                i <= base_urls.len(),
                views(initial@) == start_addresses(sites.take(i as int)),
            decreases base_urls.len() - i,
        {
            let b = base_urls[i].as_str();
            let mut https = String::new();
            https.append("https://");
            https.append(b);
            https.append("/sitemap.xml");
            let mut http = String::new();
            http.append("http://");
            http.append(b);
            http.append("/sitemap.xml");
            let ghost before = views(initial@);
            initial.push(https);
            initial.push(http);
            proof {
                assert(sites.take(i + 1).drop_last() =~= sites.take(i as int));
                assert(sites.take(i + 1).last() == b@);
                assert(views(initial@) =~= before.push("https://"@ + b@ + "/sitemap.xml"@).push("http://"@ + b@ + "/sitemap.xml"@));
            }
            i = i + 1;
        }
        assert(sites.take(base_urls.len() as int) =~= sites);
        let c = SitemapCrawl { initial, next_initial: 0, stack: Vec::new(), fetched: Vec::new(), urls: Vec::new() };
        assert(c.state().stack =~= Seq::<Option<Seq<char>>>::empty());
        assert(c.state().fetched =~= Seq::<Seq<char>>::empty());
        assert(c.state().urls =~= Seq::<Seq<char>>::empty());
        c
    }

    fn note_fetched(&mut self, u: &String)
        requires
            distinct(old(self).state().fetched),
        ensures
            final(self).state() == (CrawlState { fetched: insert(old(self).state().fetched, u@), ..old(self).state() }),
    {
        let ghost f = self.state().fetched;
        if !contains_string(&self.fetched, u) {
            self.fetched.push(u.clone());
            assert(views(self.fetched@) =~= f.push(u@));
        }
    }

    /// The next sitemap to fetch, if any; see `next_step`.
    pub fn next_fetch(&mut self) -> (r: Option<String>)
        requires
            state_wf(old(self).state()),
        ensures
            final(self).state() == next_step(old(self).state()).0,
            loc_view(r) == next_step(old(self).state()).1,
            state_wf(final(self).state()),
    {
        proof {
            lemma_next_step_wf(self.state());
        }
        if self.next_initial < self.initial.len() {
            let u = self.initial[self.next_initial].clone();
            let ghost st = self.state();
            self.note_fetched(&u);
            self.next_initial = self.next_initial + 1;
            assert(self.state() == next_step(st).0);
            return Some(u);
        }
        loop
            invariant
                state_wf(self.state()),
                self.next_initial >= self.initial.len(),
                next_step(self.state()) == next_step(old(self).state()),
            decreases self.stack.len(),
        {
            let ghost st = self.state();
            match self.stack.pop() {
                None => {
                    return None;
                },
                Some(top) => {
                    proof {
                        assert(loc_views(self.stack@) =~= st.stack.drop_last());
                    }
                    match top {
                        None => {},
                        Some(u) => {
                            if !contains_string(&self.fetched, &u) {
                                self.fetched.push(u.clone());
                                assert(views(self.fetched@) =~= st.fetched.push(u@));
                                return Some(u);
                            }
                        },
                    }
                },
            }
        }
    }

    /// Records the entries of a fetched sitemap, none of them a page entry
    /// without a valid location; see `record`.
    pub fn record_entries(&mut self, entries: &Vec<SitemapEntry>)
        requires
            state_wf(old(self).state()),
            all_pages_located(entries_view(entries@)),
        ensures
            final(self).state() == record(old(self).state(), entries_view(entries@)),
            state_wf(final(self).state()),
    {
        let ghost es = entries_view(entries@);
        let ghost st0 = self.state();
        let mut i: usize = 0;
        assert(es.take(0) =~= Seq::<EntryView>::empty());
        while i < entries.len()
            invariant
                es == entries_view(entries@),
                all_pages_located(es),
                i <= entries.len(),
                self.state() == record(st0, es.take(i as int)),
                state_wf(self.state()),
            decreases entries.len() - i,
        {
            let ghost st = self.state();
            proof {
                assert(es.take(i + 1).drop_last() =~= es.take(i as int));
                assert(es.take(i + 1).last() == entry_view(entries@[i as int]));
            }
            match &entries[i] {
                SitemapEntry::Page(Some(u)) => {
                    if !contains_string(&self.urls, u) {
                        self.urls.push(u.clone());
                        assert(views(self.urls@) =~= st.urls.push(u@));
                    }
                    proof {
                        lemma_insert_distinct(st.urls, u@);
                    }
                },
                SitemapEntry::Page(None) => {
                    assert(!(es[i as int] matches EntryView::Page(None)));
                },
                SitemapEntry::Index(l) => {
                    self.stack.push(l.clone());
                    assert(loc_views(self.stack@) =~= st.stack.push(loc_view(*l)));
                },
                SitemapEntry::Invalid => {},
            }
            assert(self.state() == record(st0, es.take(i + 1)));
            i = i + 1;
        }
        assert(es.take(entries.len() as int) =~= es);
    }

    /// Reads a fetched sitemap document and records its entries. Returns
    /// `false` and changes nothing where the document has a page entry
    /// without a valid location, where the traversal gives up.
    pub fn record_sitemap(&mut self, text: &str) -> (ok: bool)
        requires
            state_wf(old(self).state()),
        ensures
            ok == all_pages_located(sitemap_entries(text@)),
            ok ==> final(self).state() == record(old(self).state(), sitemap_entries(text@)),
            !ok ==> final(self).state() == old(self).state(),
            state_wf(final(self).state()),
    {
        let entries = parse_sitemap(text);
        let mut i: usize = 0;
        while i < entries.len()
            invariant
                i <= entries.len(),
                entries_view(entries@) == sitemap_entries(text@),
                self.state() == old(self).state(),
                state_wf(self.state()),
                forall|k: int| 0 <= k < i ==> !(#[trigger] entries_view(entries@)[k] matches EntryView::Page(None)),
            decreases entries.len() - i,
        {
            match &entries[i] {
                SitemapEntry::Page(None) => {
                    assert(entries_view(entries@)[i as int] matches EntryView::Page(None));
                    return false;
                },
                _ => {},
            }
            i = i + 1;
        }
        self.record_entries(&entries);
        true
    }

    /// The page addresses found so far, each once, in the order found.
    pub fn found_urls(&self) -> (r: Vec<String>)
        ensures
            views(r@) == self.state().urls,
    {
        let mut r: Vec<String> = Vec::new();
        let mut i: usize = 0;
        while i < self.urls.len()
            invariant
                i <= self.urls.len(),
                views(r@) == views(self.urls@).take(i as int),
            decreases self.urls.len() - i,
        {
            let ghost before = views(r@);
            r.push(self.urls[i].clone());
            assert(views(r@) =~= before.push(self.urls@[i as int]@));
            assert(views(r@) =~= views(self.urls@).take(i + 1));
            i = i + 1;
        }
        assert(views(self.urls@).take(self.urls.len() as int) =~= views(self.urls@));
        r
    }
}

/// Once the start addresses are handed out, a sitemap handed out for
/// fetching was not fetched before, and it is the one that joins the
/// fetched ones: no sitemap is fetched twice, so cycles among sitemap
/// indexes do not trap the traversal.
pub proof fn stack_fetch_is_new(st: CrawlState)
    requires
        state_wf(st),
        st.next_initial >= st.initial.len(),
    ensures
        next_step(st).1 matches Some(u) ==> !st.fetched.contains(u) && next_step(st).0.fetched == st.fetched.push(u),
        next_step(st).1 is None ==> next_step(st).0.fetched == st.fetched,
    decreases st.stack.len(),
{
    if st.stack.len() > 0 {
        let rest = CrawlState { stack: st.stack.drop_last(), ..st };
        match st.stack.last() {
            Some(u) => if st.fetched.contains(u) {
                stack_fetch_is_new(rest);
            },
            None => stack_fetch_is_new(rest),
        }
    }
}

/// Whatever is handed out for fetching counts as fetched from then on, and
/// nothing fetched is forgotten.
pub proof fn handed_out_is_fetched(st: CrawlState)
    requires
        state_wf(st),
    ensures
        next_step(st).1 matches Some(u) ==> next_step(st).0.fetched.contains(u),
        forall|v: Seq<char>| st.fetched.contains(v) ==> #[trigger] next_step(st).0.fetched.contains(v),
    decreases st.stack.len(),
{
    if st.next_initial < st.initial.len() {
        lemma_insert_distinct(st.fetched, st.initial[st.next_initial as int]);
    } else if st.stack.len() > 0 {
        let rest = CrawlState { stack: st.stack.drop_last(), ..st };
        match st.stack.last() {
            Some(u) => if st.fetched.contains(u) {
                handed_out_is_fetched(rest);
            } else {
                assert(st.fetched.push(u)[st.fetched.len() as int] == u);
                assert forall|v: Seq<char>| st.fetched.contains(v) implies #[trigger] next_step(st).0.fetched.contains(v) by {
                    let i = choose|i: int| 0 <= i < st.fetched.len() && st.fetched[i] == v;
                    assert(st.fetched.push(u)[i] == v);
                }
            },
            None => handed_out_is_fetched(rest),
        }
    }
}

/// A traversal hands out nothing only when it is done: every start address
/// was handed out, nothing is left on the stack, and every index location
/// that was waiting there had been fetched already.
pub proof fn exhausted_covers_stack(st: CrawlState)
    requires
        state_wf(st),
    ensures
        next_step(st).1 is None ==> {
            &&& st.next_initial == st.initial.len()
            &&& next_step(st).0.stack.len() == 0
            &&& forall|i: int| 0 <= i < st.stack.len() ==> (#[trigger] st.stack[i] matches Some(u) ==> st.fetched.contains(u))
        },
    decreases st.stack.len(),
{
    if st.next_initial >= st.initial.len() && st.stack.len() > 0 {
        let rest = CrawlState { stack: st.stack.drop_last(), ..st };
        match st.stack.last() {
            Some(u) => if st.fetched.contains(u) {
                exhausted_covers_stack(rest);
                if next_step(st).1 is None {
                    assert forall|i: int| 0 <= i < st.stack.len() implies (#[trigger] st.stack[i] matches Some(v) ==> st.fetched.contains(v)) by {
                        if i < rest.stack.len() {
                            assert(rest.stack[i] == st.stack[i]);
                        }
                    }
                }
            },
            None => {
                exhausted_covers_stack(rest);
                if next_step(st).1 is None {
                    assert forall|i: int| 0 <= i < st.stack.len() implies (#[trigger] st.stack[i] matches Some(v) ==> st.fetched.contains(v)) by {
                        if i < rest.stack.len() {
                            assert(rest.stack[i] == st.stack[i]);
                        }
                    }
                }
            },
        }
    }
}

/// Every start address handed out so far has been fetched.
pub open spec fn starts_fetched(st: CrawlState) -> bool {
    forall|i: int| 0 <= i < st.next_initial ==> st.fetched.contains(#[trigger] st.initial[i])
}

/// Taking a step and recording a sitemap both keep every start address that
/// was handed out among the fetched ones; with `exhausted_covers_stack`, a
/// traversal that hands out nothing has fetched all its start addresses.
pub proof fn start_addresses_stay_fetched(st: CrawlState, es: Seq<EntryView>)
    requires
        state_wf(st),
        starts_fetched(st),
    ensures
        starts_fetched(next_step(st).0),
        starts_fetched(record(st, es)),
{
    handed_out_is_fetched(st);
    lemma_next_step_wf(st);
    lemma_record_wf(st, es);
    let nx = next_step(st).0;
    assert forall|i: int| 0 <= i < nx.next_initial implies nx.fetched.contains(#[trigger] nx.initial[i]) by {
        if i < st.next_initial {
            assert(st.fetched.contains(st.initial[i]));
        } else {
            assert(st.next_initial < st.initial.len());
            assert(next_step(st).1 == Some(st.initial[st.next_initial as int]));
        }
    }
}

/// The page addresses a sitemap lists, in order.
pub open spec fn listed_pages(es: Seq<EntryView>) -> Seq<Seq<char>>
    decreases es.len(),
{
    if es.len() == 0 {
        Seq::empty()
    } else {
        match es.last() {
            EntryView::Page(Some(u)) => listed_pages(es.drop_last()).push(u),
            _ => listed_pages(es.drop_last()),
        }
    }
}

/// Recording a sitemap keeps every address found before and adds exactly
/// the pages it lists: an address is found afterwards exactly when it was
/// found before or the sitemap lists it.
pub proof fn record_finds_listed_pages(st: CrawlState, es: Seq<EntryView>)
    requires
        state_wf(st),
    ensures
        forall|u: Seq<char>| #[trigger] record(st, es).urls.contains(u) <==> (st.urls.contains(u) || listed_pages(es).contains(u)),
    decreases es.len(),
{
    if es.len() > 0 {
        record_finds_listed_pages(st, es.drop_last());
        lemma_record_wf(st, es.drop_last());
        let r = record(st, es.drop_last());
        let lp = listed_pages(es.drop_last());
        match es.last() {
            EntryView::Page(Some(x)) => {
                lemma_insert_distinct(r.urls, x);
                assert(listed_pages(es) == lp.push(x));
                assert(record(st, es).urls == insert(r.urls, x));
                let ins = insert(r.urls, x);
                assert forall|u: Seq<char>| #[trigger] record(st, es).urls.contains(u) <==> (st.urls.contains(u) || listed_pages(es).contains(u)) by {
                    assert(lp.push(x)[lp.len() as int] == x);
                    if lp.contains(u) {
                        let i = choose|i: int| 0 <= i < lp.len() && lp[i] == u;
                        assert(lp.push(x)[i] == u);
                    }
                    if lp.push(x).contains(u) {
                        let i = choose|i: int| 0 <= i < lp.push(x).len() && lp.push(x)[i] == u;
                        if i < lp.len() {
                            assert(lp[i] == u);
                        }
                    }
                    if ins.contains(u) {
                        assert(r.urls.contains(u) || u == x);
                    }
                    if r.urls.contains(u) {
                        assert(ins.contains(u));
                    }
                    if u == x {
                        assert(ins.contains(u));
                    }
                }
            },
            _ => {},
        }
    }
}

/// The index locations a sitemap lists, in order.
pub open spec fn index_locs(es: Seq<EntryView>) -> Seq<Option<Seq<char>>>
    decreases es.len(),
{
    if es.len() == 0 {
        Seq::empty()
    } else {
        match es.last() {
            EntryView::Index(l) => index_locs(es.drop_last()).push(l),
            _ => index_locs(es.drop_last()),
        }
    }
}

/// `s` is a start address, or a sitemap that a sitemap reachable in fewer
/// than `k` steps lists as an index location; `web` gives the entries read
/// from the document at each address.
pub open spec fn reach_within(starts: Seq<Seq<char>>, web: spec_fn(Seq<char>) -> Seq<EntryView>, k: nat, s: Seq<char>) -> bool
    decreases k,
{
    if k == 0 {
        starts.contains(s)
    } else {
        ||| reach_within(starts, web, (k - 1) as nat, s)
        ||| exists|p: Seq<char>| reach_within(starts, web, (k - 1) as nat, p) && #[trigger] index_locs(web(p)).contains(Some(s))
    }
}

/// `s` can be reached from the start addresses by following index entries.
pub open spec fn reachable(starts: Seq<Seq<char>>, web: spec_fn(Seq<char>) -> Seq<EntryView>, s: Seq<char>) -> bool {
    exists|k: nat| reach_within(starts, web, k, s)
}

/// The state in which a traversal of the given sites starts.
pub open spec fn crawl_start(sites: Seq<Seq<char>>) -> CrawlState {
    CrawlState {
        initial: start_addresses(sites),
        next_initial: 0,
        stack: Seq::empty(),
        fetched: Seq::empty(),
        urls: Seq::empty(),
    }
}

/// One round of the traversal: hand out the next sitemap and record the
/// entries read from it.
pub open spec fn crawl_step(st: CrawlState, web: spec_fn(Seq<char>) -> Seq<EntryView>) -> CrawlState {
    match next_step(st).1 {
        Some(u) => record(next_step(st).0, web(u)),
        None => next_step(st).0,
    }
}

/// `n` rounds of the traversal.
pub open spec fn crawl_run(st: CrawlState, web: spec_fn(Seq<char>) -> Seq<EntryView>, n: nat) -> CrawlState
    decreases n,
{
    if n == 0 {
        st
    } else {
        crawl_run(crawl_step(st, web), web, (n - 1) as nat)
    }
}

/// What holds after every round of a traversal.
spec fn crawl_inv(st: CrawlState, web: spec_fn(Seq<char>) -> Seq<EntryView>) -> bool {
    &&& state_wf(st)
    &&& starts_fetched(st)
    &&& forall|s: Seq<char>| #[trigger] st.fetched.contains(s) ==> reachable(st.initial, web, s)
    &&& forall|i: int| 0 <= i < st.stack.len() ==> (#[trigger] st.stack[i] matches Some(v) ==> reachable(st.initial, web, v))
    &&& forall|s: Seq<char>, v: Seq<char>|
        #![trigger st.fetched.contains(s), index_locs(web(s)).contains(Some(v))]
        st.fetched.contains(s) && index_locs(web(s)).contains(Some(v)) ==> st.fetched.contains(v) || st.stack.contains(Some(v))
    &&& forall|u: Seq<char>| #[trigger] st.urls.contains(u) <==> exists|s: Seq<char>| st.fetched.contains(s) && #[trigger] listed_pages(web(s)).contains(u)
}

proof fn lemma_record_stack(st: CrawlState, es: Seq<EntryView>)
    ensures
        record(st, es).stack == st.stack + index_locs(es),
    decreases es.len(),
{
    if es.len() > 0 {
        lemma_record_stack(st, es.drop_last());
        match es.last() {
            EntryView::Index(l) => {
                assert(st.stack + index_locs(es) =~= (st.stack + index_locs(es.drop_last())).push(l));
            },
            _ => {},
        }
    }
}

proof fn lemma_next_step_pops(st: CrawlState)
    requires
        state_wf(st),
        st.next_initial >= st.initial.len(),
    ensures
        next_step(st).0.stack.len() <= st.stack.len(),
        next_step(st).0.stack == st.stack.take(next_step(st).0.stack.len() as int),
        forall|i: int| next_step(st).0.stack.len() <= i < st.stack.len()
            ==> (#[trigger] st.stack[i] matches Some(v) ==> next_step(st).0.fetched.contains(v)),
        next_step(st).0.next_initial == st.next_initial,
        next_step(st).0.initial == st.initial,
        next_step(st).0.urls == st.urls,
        next_step(st).1 matches Some(u) ==> st.stack.contains(Some(u)),
    decreases st.stack.len(),
{
    if st.stack.len() == 0 {
        assert(st.stack.take(0) =~= st.stack);
    } else {
        let rest = CrawlState { stack: st.stack.drop_last(), ..st };
        let last_i = st.stack.len() - 1;
        match st.stack.last() {
            Some(u) => if st.fetched.contains(u) {
                lemma_next_step_pops(rest);
                handed_out_is_fetched(rest);
                let nx = next_step(rest).0;
                assert(nx.stack =~= st.stack.take(nx.stack.len() as int));
                assert forall|i: int| nx.stack.len() <= i < st.stack.len() implies (#[trigger] st.stack[i] matches Some(v) ==> nx.fetched.contains(v)) by {
                    if i < last_i {
                        assert(rest.stack[i] == st.stack[i]);
                    }
                }
                if next_step(rest).1 is Some {
                    let w = next_step(rest).1->0;
                    let j = choose|j: int| 0 <= j < rest.stack.len() && rest.stack[j] == Some(w);
                    assert(st.stack[j] == Some(w));
                }
            } else {
                assert(st.stack.drop_last() =~= st.stack.take(last_i));
                assert(st.stack.last() == st.stack[last_i]);
                assert(st.fetched.push(u)[st.fetched.len() as int] == u);
            },
            None => {
                lemma_next_step_pops(rest);
                let nx = next_step(rest).0;
                assert(nx.stack =~= st.stack.take(nx.stack.len() as int));
                assert forall|i: int| nx.stack.len() <= i < st.stack.len() implies (#[trigger] st.stack[i] matches Some(v) ==> nx.fetched.contains(v)) by {
                    if i < last_i {
                        assert(rest.stack[i] == st.stack[i]);
                    }
                }
                if next_step(rest).1 is Some {
                    let w = next_step(rest).1->0;
                    let j = choose|j: int| 0 <= j < rest.stack.len() && rest.stack[j] == Some(w);
                    assert(st.stack[j] == Some(w));
                }
            },
        }
    }
}

proof fn lemma_reach_step(starts: Seq<Seq<char>>, web: spec_fn(Seq<char>) -> Seq<EntryView>, p: Seq<char>, v: Seq<char>)
    requires
        reachable(starts, web, p),
        index_locs(web(p)).contains(Some(v)),
    ensures
        reachable(starts, web, v),
{
    let k = choose|k: nat| reach_within(starts, web, k, p);
    assert(reach_within(starts, web, k + 1, v));
}

proof fn lemma_start_reachable(starts: Seq<Seq<char>>, web: spec_fn(Seq<char>) -> Seq<EntryView>, s: Seq<char>)
    requires
        starts.contains(s),
    ensures
        reachable(starts, web, s),
{
    assert(reach_within(starts, web, 0, s));
}

proof fn lemma_crawl_step_inv(st: CrawlState, web: spec_fn(Seq<char>) -> Seq<EntryView>)
    requires
        crawl_inv(st, web),
    ensures
        crawl_inv(crawl_step(st, web), web),
        crawl_step(st, web).initial == st.initial,
{
    let nx = next_step(st).0;
    lemma_next_step_wf(st);
    handed_out_is_fetched(st);
    start_addresses_stay_fetched(st, Seq::empty());
    if st.next_initial < st.initial.len() {
        let u = st.initial[st.next_initial as int];
        assert(next_step(st).1 == Some(u));
        lemma_insert_distinct(st.fetched, u);
        lemma_start_reachable(st.initial, web, u);
        assert(nx.stack =~= st.stack.take(st.stack.len() as int));
        lemma_step_some_inv(st, web, u, nx);
    } else {
        lemma_next_step_pops(st);
        stack_fetch_is_new(st);
        match next_step(st).1 {
            None => {
                exhausted_covers_stack(st);
                assert forall|s: Seq<char>, v: Seq<char>|
                    #![trigger nx.fetched.contains(s), index_locs(web(s)).contains(Some(v))]
                    nx.fetched.contains(s) && index_locs(web(s)).contains(Some(v)) implies nx.fetched.contains(v) || nx.stack.contains(Some(v)) by {
                    assert(st.fetched.contains(s));
                    if st.stack.contains(Some(v)) {
                        let j = choose|j: int| 0 <= j < st.stack.len() && st.stack[j] == Some(v);
                        assert(st.stack[j] matches Some(w) ==> st.fetched.contains(w));
                    }
                }
            },
            Some(u) => {
                let j = choose|j: int| 0 <= j < st.stack.len() && st.stack[j] == Some(u);
                assert(st.stack[j] matches Some(w) ==> reachable(st.initial, web, w));
                lemma_step_some_inv(st, web, u, nx);
            },
        }
    }
}

proof fn lemma_step_some_inv(st: CrawlState, web: spec_fn(Seq<char>) -> Seq<EntryView>, u: Seq<char>, nx: CrawlState)
    requires
        crawl_inv(st, web),
        nx == next_step(st).0,
        next_step(st).1 == Some(u),
        reachable(st.initial, web, u),
        state_wf(nx),
        starts_fetched(nx),
        nx.initial == st.initial,
        nx.urls == st.urls,
        forall|x: Seq<char>| #[trigger] nx.fetched.contains(x) <==> (st.fetched.contains(x) || x == u),
        nx.stack.len() <= st.stack.len(),
        nx.stack == st.stack.take(nx.stack.len() as int),
        forall|i: int| nx.stack.len() <= i < st.stack.len() ==> (#[trigger] st.stack[i] matches Some(v) ==> nx.fetched.contains(v)),
    ensures
        crawl_inv(crawl_step(st, web), web),
        crawl_step(st, web).initial == st.initial,
{
    let es = web(u);
    let st2 = record(nx, es);
    assert(crawl_step(st, web) == st2);
    lemma_record_wf(nx, es);
    lemma_record_stack(nx, es);
    record_finds_listed_pages(nx, es);
    assert(starts_fetched(st2));
    assert forall|s: Seq<char>| #[trigger] st2.fetched.contains(s) implies reachable(st2.initial, web, s) by {
        assert(nx.fetched.contains(s));
    }
    assert forall|i: int| 0 <= i < st2.stack.len() implies (#[trigger] st2.stack[i] matches Some(v) ==> reachable(st2.initial, web, v)) by {
        if i < nx.stack.len() {
            assert(st2.stack[i] == st.stack[i]);
        } else {
            let k = i - nx.stack.len();
            assert(st2.stack[i] == index_locs(es)[k]);
            if st2.stack[i] is Some {
                lemma_reach_step(st.initial, web, u, st2.stack[i]->0);
            }
        }
    }
    assert forall|s: Seq<char>, v: Seq<char>|
        #![trigger st2.fetched.contains(s), index_locs(web(s)).contains(Some(v))]
        st2.fetched.contains(s) && index_locs(web(s)).contains(Some(v)) implies st2.fetched.contains(v) || st2.stack.contains(Some(v)) by {
        assert(nx.fetched.contains(s));
        if s == u {
            let k = choose|k: int| 0 <= k < index_locs(es).len() && index_locs(es)[k] == Some(v);
            assert(st2.stack[nx.stack.len() + k] == Some(v));
        } else {
            assert(st.fetched.contains(s));
            if st.fetched.contains(v) {
                assert(nx.fetched.contains(v));
            } else {
                assert(st.stack.contains(Some(v)));
                let j = choose|j: int| 0 <= j < st.stack.len() && st.stack[j] == Some(v);
                if j < nx.stack.len() {
                    assert(st2.stack[j] == Some(v));
                } else {
                    assert(st.stack[j] matches Some(w) ==> nx.fetched.contains(w));
                }
            }
        }
    }
    assert forall|x: Seq<char>| #[trigger] st2.urls.contains(x) <==> exists|s: Seq<char>| st2.fetched.contains(s) && #[trigger] listed_pages(web(s)).contains(x) by {
        if st2.urls.contains(x) {
            if st.urls.contains(x) {
                let s = choose|s: Seq<char>| st.fetched.contains(s) && #[trigger] listed_pages(web(s)).contains(x);
                assert(nx.fetched.contains(s));
            } else {
                assert(listed_pages(es).contains(x));
                assert(nx.fetched.contains(u));
            }
        }
        if exists|s: Seq<char>| st2.fetched.contains(s) && #[trigger] listed_pages(web(s)).contains(x) {
            let s = choose|s: Seq<char>| st2.fetched.contains(s) && #[trigger] listed_pages(web(s)).contains(x);
            assert(nx.fetched.contains(s));
            if s != u {
                assert(st.fetched.contains(s));
                assert(st.urls.contains(x));
            }
        }
    }
}

proof fn lemma_crawl_run_inv(st: CrawlState, web: spec_fn(Seq<char>) -> Seq<EntryView>, n: nat)
    requires
        crawl_inv(st, web),
    ensures
        crawl_inv(crawl_run(st, web, n), web),
        crawl_run(st, web, n).initial == st.initial,
    decreases n,
{
    if n > 0 {
        lemma_crawl_step_inv(st, web);
        lemma_crawl_run_inv(crawl_step(st, web), web, (n - 1) as nat);
    }
}

proof fn lemma_done_contains_reachable(st: CrawlState, web: spec_fn(Seq<char>) -> Seq<EntryView>, k: nat, s: Seq<char>)
    requires
        crawl_inv(st, web),
        st.next_initial == st.initial.len(),
        forall|i: int| 0 <= i < st.stack.len() ==> (#[trigger] st.stack[i] matches Some(v) ==> st.fetched.contains(v)),
        reach_within(st.initial, web, k, s),
    ensures
        st.fetched.contains(s),
    decreases k,
{
    if k == 0 {
        let i = choose|i: int| 0 <= i < st.initial.len() && st.initial[i] == s;
        assert(st.fetched.contains(st.initial[i]));
    } else if reach_within(st.initial, web, (k - 1) as nat, s) {
        lemma_done_contains_reachable(st, web, (k - 1) as nat, s);
    } else {
        let p = choose|p: Seq<char>| reach_within(st.initial, web, (k - 1) as nat, p) && #[trigger] index_locs(web(p)).contains(Some(s));
        lemma_done_contains_reachable(st, web, (k - 1) as nat, p);
        if !st.fetched.contains(s) {
            assert(st.stack.contains(Some(s)));
            let j = choose|j: int| 0 <= j < st.stack.len() && st.stack[j] == Some(s);
            assert(st.stack[j] matches Some(w) ==> st.fetched.contains(w));
        }
    }
}

/// The traversal as a whole. Start at the sites' start addresses and let
/// `web` give the entries read from the sitemap at each address; once `n`
/// rounds of handing out a sitemap and recording its entries leave nothing
/// to hand out, the sitemaps fetched are exactly those reachable from the
/// start addresses through index entries, none of them fetched twice, and
/// the addresses found are exactly the page locations those sitemaps list.
pub proof fn traversal_finds_reachable_pages(sites: Seq<Seq<char>>, web: spec_fn(Seq<char>) -> Seq<EntryView>, n: nat)
    requires
        next_step(crawl_run(crawl_start(sites), web, n)).1 is None,
    ensures
        distinct(crawl_run(crawl_start(sites), web, n).fetched),
        forall|s: Seq<char>| #[trigger] crawl_run(crawl_start(sites), web, n).fetched.contains(s)
            <==> reachable(start_addresses(sites), web, s),
        forall|u: Seq<char>| #[trigger] crawl_run(crawl_start(sites), web, n).urls.contains(u)
            <==> exists|s: Seq<char>| reachable(start_addresses(sites), web, s) && #[trigger] listed_pages(web(s)).contains(u),
{
    let st0 = crawl_start(sites);
    let f = crawl_run(st0, web, n);
    assert(crawl_inv(st0, web));
    lemma_crawl_run_inv(st0, web, n);
    exhausted_covers_stack(f);
    assert forall|s: Seq<char>| #[trigger] f.fetched.contains(s) <==> reachable(start_addresses(sites), web, s) by {
        if reachable(start_addresses(sites), web, s) {
            let k = choose|k: nat| reach_within(start_addresses(sites), web, k, s);
            lemma_done_contains_reachable(f, web, k, s);
        }
    }
    assert forall|u: Seq<char>| #[trigger] f.urls.contains(u)
        <==> exists|s: Seq<char>| reachable(start_addresses(sites), web, s) && #[trigger] listed_pages(web(s)).contains(u) by {
        if f.urls.contains(u) {
            let s = choose|s: Seq<char>| f.fetched.contains(s) && #[trigger] listed_pages(web(s)).contains(u);
            assert(reachable(start_addresses(sites), web, s));
        }
        if exists|s: Seq<char>| reachable(start_addresses(sites), web, s) && #[trigger] listed_pages(web(s)).contains(u) {
            let s = choose|s: Seq<char>| reachable(start_addresses(sites), web, s) && #[trigger] listed_pages(web(s)).contains(u);
            assert(f.fetched.contains(s));
        }
    }
}

/// Why no sitemap site could be read off an address.
#[derive(Debug, Clone, Copy, PartialEq, Eq, Structural)]
pub enum CrawlUrlError {
    /// The address is not a URL.
    Unparsable,
    /// The address has no host.
    NoHost,
}

/// The site whose sitemaps a crawled address leads to: its host, a slash and
/// its path.
pub open spec fn sitemap_site_outcome(url: Seq<char>) -> Result<Seq<char>, CrawlUrlError> {
    match url_parts(url) {
        None => Err(CrawlUrlError::Unparsable),
        Some((_, None, _)) => Err(CrawlUrlError::NoHost),
        Some((_, Some(host), path)) => Ok(host + "/"@ + path),
    }
}

/// Reads the sitemap site off a crawled address.
pub fn sitemap_site_of(url: &str) -> (r: Result<String, CrawlUrlError>)
    ensures
        match (r, sitemap_site_outcome(url@)) {
            (Ok(s), Ok(t)) => s@ == t,
            (Err(e), Err(f)) => e == f,
            _ => false,
        },
{
    match parse_url(url) {
        None => Err(CrawlUrlError::Unparsable),
        Some(p) => match p.host {
            None => Err(CrawlUrlError::NoHost),
            Some(host) => {
                let mut s = host;
                s.append("/");
                s.append(p.path.as_str());
                Ok(s)
            },
        },
    }
}

} // verus!
