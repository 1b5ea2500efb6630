use querty::classify::{website_type, website_type_of_lowercase};
use querty::react::{rank_change, ReactError, ReactType};
use querty::settings::{mysql_url, solr_handler, Database, Settings, Solr};
use querty::solr::{
    check_suggest_query, dataimport_url, ext_link_urls, id_query, linking_query, metadata_texts, select_url, suggest_url,
    update_url, url_query, Term,
};
use querty::model::{ExternalLink, Metadata};

fn solr() -> Solr {
    Solr {
        server: "localhost".to_string(),
        port: 8983,
        collection: "querty".to_string(),
        path_to_solr: "~/solr".to_string(),
        path_to_solr_config: "~/querty/config/solr".to_string(),
    }
}

#[test]
fn upvote_and_downvote_change_rank_by_one() {
    assert_eq!(rank_change(1, ReactType::Upvote, true, true).ok(), Some(1));
    assert_eq!(rank_change(1, ReactType::Downvote, true, true).ok(), Some(-1));
}

#[test]
fn reaction_errors() {
    assert!(matches!(rank_change(0, ReactType::Upvote, true, true), Err(ReactError::NoWebsiteWithThatId)));
    match rank_change(2, ReactType::Upvote, true, true) {
        Err(ReactError::InvalidArgument { mes }) => assert_eq!(mes, "Vector is not empty and has a size != 1."),
        _ => panic!("two pages with one id"),
    }
    assert!(matches!(rank_change(1, ReactType::Upvote, false, true), Err(ReactError::GenericError)));
    assert!(matches!(rank_change(1, ReactType::Downvote, true, false), Err(ReactError::GenericError)));
    assert_eq!(ReactError::GenericError.message(), "An error occured in user_react()");
    assert_eq!(ReactError::NoWebsiteWithThatId.message(), "No website with the provided id exists in solr.");
}

#[test]
fn ranks_stay_within_ten() {
    for rank in -10i32..=10 {
        for react in [ReactType::Upvote, ReactType::Downvote] {
            if let Ok(d) = rank_change(1, react, rank <= 9, rank >= -9) {
                let r = rank + d as i32;
                assert!(-10 <= r && r <= 10);
            }
        }
    }
}

#[test]
fn quick_page_type() {
    assert_eq!(website_type("Install the latest VERSION"), "product");
    assert_eq!(website_type("Actively Maintained"), "product");
    assert_eq!(website_type("An Article"), "article");
    assert_eq!(website_type("hello"), "default");
    assert_eq!(website_type_of_lowercase("Author"), "default");
}

#[test]
fn connection_urls() {
    let db = Database {
        server: "localhost".to_string(),
        port: 3306,
        db_name: "querty".to_string(),
        user: "root".to_string(),
        pass: "pw".to_string(),
    };
    assert_eq!(mysql_url(&db), "mysql://root:pw@localhost:3306/querty");
    let settings = Settings { debug: false, database: db, solr: solr() };
    assert_eq!(settings.get_serv(), "localhost");
    assert_eq!(solr_handler(&solr(), "select"), "http://localhost:8983/solr/querty/select");
}

#[test]
fn index_request_urls() {
    assert_eq!(select_url(&solr(), "url:\"a b\""), "http://localhost:8983/solr/querty/select?q=url%3A%22a%20b%22");
    assert_eq!(update_url(&solr()), "http://localhost:8983/solr/querty/update/json/docs?commit=true");
    assert_eq!(
        dataimport_url(&solr()),
        "http://localhost:8983/solr/querty/dataimport?command=full-import&commit=true&clean=true"
    );
    assert_eq!(
        suggest_url(&solr(), &"thin".to_string()),
        "http://localhost:8983/solr/querty/suggest?suggest=true&suggest.build=true&suggest.dictionary=mySuggester&wt=json&suggest.q=text%3Athin&sort=termfreq%28url%2Cthin%29%20desc%2Ctermfreq%28text_all%2Cthin%29%20desc"
    );
}

#[test]
fn field_queries() {
    assert_eq!(url_query("https://www.rust-lang.org"), "url:\"https://www.rust-lang.org\"");
    assert_eq!(id_query(42), "id:\"42\"");
    assert_eq!(id_query(0), "id:\"0\"");
    assert_eq!(id_query(4294967295), "id:\"4294967295\"");
    assert_eq!(linking_query("rust-lang.org"), "external_links:\"rust-lang.org\" AND rank:[0.0 TO *]");
}

#[test]
fn suggester_takes_two_to_255_characters() {
    assert!(check_suggest_query(&"a".to_string()).is_err());
    assert!(check_suggest_query(&"ab".to_string()).is_ok());
    assert!(check_suggest_query(&"é".repeat(255)).is_ok());
    let e = check_suggest_query(&"x".repeat(256)).unwrap_err();
    assert_eq!(e.message(), "invalid parameter passed to suggest(): query string should be between 2 and 255 characters long");
}

#[test]
fn values_written_back_to_the_index() {
    let ms = vec![Metadata { id: Some(1), metadata_text: "m".to_string(), website_id: None }];
    assert_eq!(metadata_texts(&ms), vec!["m".to_string()]);
    let ls = vec![ExternalLink { id: None, url: "spacex.com".to_string() }];
    assert_eq!(ext_link_urls(&ls), vec!["spacex.com".to_string()]);
}

#[test]
fn terms_equal_by_term_only() {
    let a = Term { term: "things".to_string(), weight: 1, payload: "".to_string() };
    let b = Term { term: "things".to_string(), weight: 2, payload: "p".to_string() };
    let c = Term { term: "thin".to_string(), weight: 1, payload: "".to_string() };
    assert!(a == b);
    assert!(a != c);
}
