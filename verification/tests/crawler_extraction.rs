use querty::crawler::{BaseUrlError, ClassifierReply, Crawler, GenreError, PageAction};
use querty::domain::SuffixList;
use querty::model::{ExternalLink, Metadata, WebsiteRefExtLink};

const LIST: &str = "// ===BEGIN ICANN DOMAINS===\ncom\norg\nuk\nco.uk\nio\n// ===END ICANN DOMAINS===\n";

fn list() -> SuffixList {
    SuffixList::from_text(LIST).expect("the test list parses")
}

const PAGE: &str = "<html><head><title>  Rust Programming Language \n</title>\
<meta charset=\"utf-8\"><meta name=\"description\" content=\"A language\"></head>\
<body><h1> Rust </h1><p>   </p><p>Fast\n</p>\
<a href=\"https://crates.io/crates\">crates</a>\
<a href=\"https://doc.rust-lang.org/book\">book</a>\
<a href=\"https://www.github.com/rust-lang\">github</a>\
<a href=\"https://github.com/other\">again</a>\
<a href=\"/relative\">relative</a>\
<a name=\"no-href\">none</a>\
<a href=\"mailto:someone@example.com\">mail</a>\
</body></html>";

#[test]
fn suffix_list_rejects_text_without_rules() {
    assert!(SuffixList::from_text("no rules here").is_none());
}

#[test]
fn base_url_is_the_registrable_domain() {
    let l = list();
    assert_eq!(Crawler::extract_base_url(&l, "https://www.rust-lang.org/learn"), Ok("rust-lang.org".to_string()));
    assert_eq!(Crawler::extract_base_url(&l, "http://news.bbc.co.uk/x"), Ok("bbc.co.uk".to_string()));
    assert_ne!(Crawler::extract_base_url(&l, "https://www.rust-lang.org"), Ok("https://www.rust-lang.org".to_string()));
}

#[test]
fn base_url_of_non_url_is_an_error() {
    let l = list();
    assert_eq!(Crawler::extract_base_url(&l, "not a url"), Err(BaseUrlError::InvalidUrl));
    assert_eq!(Crawler::try_extract_base_url(&l, "not a url"), Some(Err(BaseUrlError::InvalidUrl)));
}

#[test]
fn base_url_without_host_gives_up() {
    let l = list();
    assert_eq!(Crawler::try_extract_base_url(&l, "mailto:someone@example.com"), None);
    assert!(!Crawler::base_url_defined(&l, "mailto:someone@example.com"));
    assert_eq!(Crawler::try_extract_base_url(&l, "https://com/"), None);
}

#[test]
fn website_info_of_a_page() {
    let l = list();
    let w = Crawler::extract_website_info(PAGE, "https://www.rust-lang.org", &l).expect("page has title and body");
    assert_eq!(w.title, "Rust Programming Language");
    assert_eq!(w.text, "Rust, Fast, crates, book, github, again, relative, none, mail");
    assert_eq!(w.url, "https://www.rust-lang.org");
    assert_eq!(w.base_url, "rust-lang.org");
    assert_eq!(w.type_of_website, "default");
}

#[test]
fn website_info_title_is_escaped_text() {
    let l = list();
    let page = "<html><head><title> Fish &amp; Chips <3 \u{a0}</title></head><body>x</body></html>";
    let w = Crawler::extract_website_info(page, "https://www.rust-lang.org", &l).expect("page has title and body");
    assert_eq!(w.title, "Fish &amp; Chips &lt;3 &nbsp;");
}

#[test]
fn website_info_needs_a_title() {
    let l = list();
    assert!(Crawler::extract_website_info("<p>no title</p>", "https://www.rust-lang.org", &l).is_none());
}

#[test]
fn website_info_from_parts_joins_trimmed_text() {
    let nodes = vec![" a ".to_string(), "\n".to_string(), "b\t".to_string()];
    let w = Crawler::website_info_from_parts(" T ", &nodes, "u", "d".to_string());
    assert_eq!(w.title, "T");
    assert_eq!(w.text, "a, b");
    assert_eq!(w.base_url, "d");
}

#[test]
fn metadata_of_a_page() {
    let ms = Crawler::extract_metadata_info(PAGE, Some(3));
    let mut texts: Vec<String> = ms.iter().map(|m| m.metadata_text.clone()).collect();
    assert_eq!(texts[0], "utf-8");
    texts[1..].sort();
    assert_eq!(texts, vec!["utf-8".to_string(), "A language".to_string(), "description".to_string()]);
    assert!(ms.iter().all(|m| m.id.is_none() && m.website_id == Some(3)));
}

#[test]
fn metadata_from_groups_flattens() {
    let groups = vec![vec!["a".to_string()], vec![], vec!["b".to_string(), "c".to_string()]];
    let ms = Crawler::metadata_from_groups(&groups, None);
    let texts: Vec<&str> = ms.iter().map(|m| m.metadata_text.as_str()).collect();
    assert_eq!(texts, vec!["a", "b", "c"]);
}

#[test]
fn external_links_of_a_page() {
    let l = list();
    let x = Crawler::extract_external_links(PAGE, Some(7), "https://www.rust-lang.org", &l).expect("links are readable");
    let domains: Vec<&str> = x.links.iter().map(|(e, _)| e.url.as_str()).collect();
    assert_eq!(domains, vec!["crates.io", "github.com"]);
    assert!(x.links.iter().all(|(e, r)| e.id.is_none() && r.id.is_none() && r.website_id == Some(7) && r.ext_link_id.is_none()));
    assert_eq!(
        x.to_crawl,
        vec![
            "https://crates.io/crates".to_string(),
            "https://www.github.com/rust-lang".to_string(),
            "https://github.com/other".to_string()
        ]
    );
}

#[test]
fn page_without_links_needs_no_valid_address() {
    let l = list();
    let x = Crawler::extract_external_links("<p>no links</p>", None, "not a url", &l).expect("nothing to read");
    assert!(x.links.is_empty() && x.to_crawl.is_empty());
}

#[test]
fn links_on_a_page_without_host_give_up() {
    let l = list();
    assert!(Crawler::extract_external_links(PAGE, None, "not a url", &l).is_none());
}

#[test]
fn collect_external_links_deduplicates_domains() {
    let ext = vec![
        ("a.com".to_string(), "https://a.com/1".to_string()),
        ("b.com".to_string(), "https://b.com".to_string()),
        ("a.com".to_string(), "https://a.com/2".to_string()),
    ];
    let x = Crawler::collect_external_links(&ext, Some(1));
    let domains: Vec<&str> = x.links.iter().map(|(e, _)| e.url.as_str()).collect();
    assert_eq!(domains, vec!["a.com", "b.com"]);
    assert_eq!(x.to_crawl.len(), 3);
}

fn meta(text: &str) -> Metadata {
    Metadata { id: None, metadata_text: text.to_string(), website_id: None }
}

#[test]
fn offline_genre_prefers_metadata() {
    let metas = vec![meta("nothing"), meta("OG:Book"), meta("og:article")];
    assert_eq!(Crawler::website_genre_offline_classification("written by someone", &metas), "product");
    assert_eq!(Crawler::website_genre_offline_classification("x", &vec![meta("og:website")]), "website");
    assert_eq!(Crawler::website_genre_offline_classification("x", &vec![meta("og:profile")]), "social");
}

#[test]
fn offline_genre_from_body_keywords() {
    assert_eq!(Crawler::website_genre_offline_classification("Get Started with VERSION 2", &vec![]), "product");
    assert_eq!(Crawler::website_genre_offline_classification("maintained and developed", &vec![]), "product");
    assert_eq!(Crawler::website_genre_offline_classification("Further reading", &vec![]), "article");
    assert_eq!(Crawler::website_genre_offline_classification("the author of this article", &vec![]), "article");
    assert_eq!(Crawler::website_genre_offline_classification("install", &vec![]), "default");
}

#[test]
fn genre_from_classifier_reply() {
    assert_eq!(Crawler::genre_from_reply(&ClassifierReply::NotAnArray), Err(GenreError::NoResponse));
    assert_eq!(Crawler::genre_from_reply(&ClassifierReply::Array(vec![])), Err(GenreError::EmptyArray));
    assert_eq!(Crawler::genre_from_reply(&ClassifierReply::Array(vec![None, Some("x".to_string())])), Err(GenreError::NotAString));
    assert_eq!(Crawler::genre_from_reply(&ClassifierReply::Array(vec![Some("news".to_string())])), Ok("news".to_string()));
    assert_eq!(GenreError::EmptyArray.message(), "Classifier returned an empty array.");
}

#[test]
fn page_action_by_stored_count() {
    assert_eq!(Crawler::page_action(0), PageAction::Save);
    assert_eq!(Crawler::page_action(1), PageAction::Update);
}

#[test]
fn modify_meta_resets_ids() {
    let c = Crawler {};
    let ms = vec![Metadata { id: Some(4), metadata_text: "a".to_string(), website_id: Some(1) }];
    let out = c.modify_meta(ms, Some(9));
    assert_eq!(out, vec![Metadata { id: None, metadata_text: "a".to_string(), website_id: Some(9) }]);
}

#[test]
fn modify_ext_links_keeps_link_ids() {
    let c = Crawler {};
    let ls = vec![(
        ExternalLink { id: Some(2), url: "a.com".to_string() },
        WebsiteRefExtLink { id: Some(5), website_id: Some(1), ext_link_id: Some(2) },
    )];
    let out = c.modify_ext_links(ls, Some(8));
    assert_eq!(
        out,
        vec![(
            ExternalLink { id: Some(2), url: "a.com".to_string() },
            WebsiteRefExtLink { id: None, website_id: Some(8), ext_link_id: Some(2) }
        )]
    );
}

#[test]
fn records_from_texts_and_urls() {
    let ms = Crawler::metadata_from_texts(&vec!["asdf".to_string(), "updated meta".to_string()], Some(1));
    assert_eq!(ms[1], Metadata { id: None, metadata_text: "updated meta".to_string(), website_id: Some(1) });
    let ls = Crawler::ext_links_from_urls(&vec!["example.com".to_string()], Some(1));
    assert_eq!(ls[0].0, ExternalLink { id: None, url: "example.com".to_string() });
    assert_eq!(ls[0].1, WebsiteRefExtLink { id: None, website_id: Some(1), ext_link_id: None });
}

#[test]
fn set_website_id_ties_every_metadata() {
    let mut ms = vec![meta("a"), Metadata { id: Some(2), metadata_text: "b".to_string(), website_id: Some(1) }];
    Crawler::set_website_id(&mut ms, Some(6));
    assert_eq!(ms[0], Metadata { id: None, metadata_text: "a".to_string(), website_id: Some(6) });
    assert_eq!(ms[1], Metadata { id: Some(2), metadata_text: "b".to_string(), website_id: Some(6) });
}

