use querty::sitemap::{sitemap_site_of, CrawlUrlError, SitemapCrawl, SitemapEntry};

const URLSET: &str = "<?xml version=\"1.0\" encoding=\"UTF-8\"?>\
<urlset xmlns=\"http://www.sitemaps.org/schemas/sitemap/0.9\">\
<url><loc>https://example.com/a</loc></url>\
<url><loc>https://example.com/b</loc></url>\
<url><loc>https://example.com/a</loc></url>\
</urlset>";

const INDEX: &str = "<?xml version=\"1.0\" encoding=\"UTF-8\"?>\
<sitemapindex xmlns=\"http://www.sitemaps.org/schemas/sitemap/0.9\">\
<sitemap><loc>https://example.com/s1.xml</loc></sitemap>\
<sitemap><loc>https://example.com/sitemap.xml</loc></sitemap>\
<sitemap><loc>https://example.com/s2.xml</loc></sitemap>\
</sitemapindex>";

#[test]
fn recording_given_entries() {
    let mut c = SitemapCrawl::new(&vec!["example.com".to_string()]);
    let entries = vec![
        SitemapEntry::Page(Some("https://example.com/x".to_string())),
        SitemapEntry::Invalid,
        SitemapEntry::Index(None),
        SitemapEntry::Index(Some("https://example.com/more.xml".to_string())),
        SitemapEntry::Page(Some("https://example.com/x".to_string())),
    ];
    c.record_entries(&entries);
    assert_eq!(c.found_urls(), vec!["https://example.com/x".to_string()]);
    assert_eq!(c.next_fetch(), Some("https://example.com/sitemap.xml".to_string()));
    assert_eq!(c.next_fetch(), Some("http://example.com/sitemap.xml".to_string()));
    assert_eq!(c.next_fetch(), Some("https://example.com/more.xml".to_string()));
    assert_eq!(c.next_fetch(), None);
}

#[test]
fn urlset_pages_are_found_once() {
    let mut c = SitemapCrawl::new(&vec![]);
    assert!(c.record_sitemap(URLSET));
    assert_eq!(c.found_urls(), vec!["https://example.com/a".to_string(), "https://example.com/b".to_string()]);
}

#[test]
fn start_addresses_come_first() {
    let mut c = SitemapCrawl::new(&vec!["example.com".to_string(), "rust-lang.org".to_string()]);
    assert_eq!(c.next_fetch(), Some("https://example.com/sitemap.xml".to_string()));
    assert_eq!(c.next_fetch(), Some("http://example.com/sitemap.xml".to_string()));
    assert_eq!(c.next_fetch(), Some("https://rust-lang.org/sitemap.xml".to_string()));
    assert_eq!(c.next_fetch(), Some("http://rust-lang.org/sitemap.xml".to_string()));
    assert_eq!(c.next_fetch(), None);
}

#[test]
fn index_entries_are_followed_once_last_first() {
    let mut c = SitemapCrawl::new(&vec!["example.com".to_string()]);
    assert_eq!(c.next_fetch(), Some("https://example.com/sitemap.xml".to_string()));
    assert!(c.record_sitemap(INDEX));
    assert_eq!(c.next_fetch(), Some("http://example.com/sitemap.xml".to_string()));
    assert!(c.record_sitemap(INDEX));
    // the stack holds s1, sitemap, s2, s1, sitemap, s2: s2 first, s1 next, the rest fetched already
    assert_eq!(c.next_fetch(), Some("https://example.com/s2.xml".to_string()));
    assert!(c.record_sitemap(URLSET));
    assert_eq!(c.next_fetch(), Some("https://example.com/s1.xml".to_string()));
    assert_eq!(c.next_fetch(), None);
    assert_eq!(c.found_urls(), vec!["https://example.com/a".to_string(), "https://example.com/b".to_string()]);
}

#[test]
fn page_entry_without_location_changes_nothing() {
    let mut c = SitemapCrawl::new(&vec!["example.com".to_string()]);
    let bad = "<urlset><url><loc>https://example.com/a</loc></url><url><loc>not a url</loc></url></urlset>";
    assert!(!c.record_sitemap(bad));
    assert!(c.found_urls().is_empty());
}

#[test]
fn sitemap_site_of_an_address() {
    assert_eq!(sitemap_site_of("https://www.rust-lang.org/learn"), Ok("www.rust-lang.org//learn".to_string()));
    assert_eq!(sitemap_site_of("https://www.rust-lang.org"), Ok("www.rust-lang.org//".to_string()));
    assert_eq!(sitemap_site_of("nothing"), Err(CrawlUrlError::Unparsable));
    assert_eq!(sitemap_site_of("mailto:a@b.com"), Err(CrawlUrlError::NoHost));
}
