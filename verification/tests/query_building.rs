use querty::query::{build_search_query, build_select_query, build_sort_query, sanitize_query, sort_query_from_pieces};

#[test]
fn sanitize_escapes_every_special_character() {
    let q = "\\+-!():^[]\"{}~*?|&;/".to_string();
    assert_eq!(
        sanitize_query(&q),
        "\\\\\\+\\-\\!\\(\\)\\:\\^\\[\\]\\\"\\{\\}\\~\\*\\?\\|\\&\\;\\/"
    );
}

#[test]
fn sanitize_leaves_plain_text_alone() {
    assert_eq!(sanitize_query(&"example rust 42".to_string()), "example rust 42");
    assert_eq!(sanitize_query(&"".to_string()), "");
}

#[test]
fn sanitize_matches_chained_replacements() {
    let q = "a\\b+c:d\"e/f".to_string();
    let chained = q
        .replace("\\", "\\\\")
        .replace("+", "\\+")
        .replace(":", "\\:")
        .replace("\"", "\\\"")
        .replace("/", "\\/");
    assert_eq!(sanitize_query(&q), chained);
}

#[test]
fn sort_query_for_two_words() {
    assert_eq!(
        build_sort_query("example rust".to_string()),
        "termfreq%28url%2Cexample%29%20desc%2Ctermfreq%28url%2Crust%29%20desc%2Ctermfreq%28text_all%2Cexample%29%20desc%2Ctermfreq%28text_all%2Crust%29%20desc"
    );
}

#[test]
fn sort_query_skips_empty_pieces() {
    assert_eq!(
        build_sort_query("--rust!!".to_string()),
        "termfreq%28url%2Crust%29%20desc%2Ctermfreq%28text_all%2Crust%29%20desc"
    );
    assert_eq!(build_sort_query("".to_string()), "");
    assert_eq!(build_sort_query("+-!".to_string()), "");
}

#[test]
fn sort_query_splits_at_non_alphanumeric_characters() {
    assert_eq!(
        build_sort_query("a,b".to_string()),
        "termfreq%28url%2Ca%29%20desc%2Ctermfreq%28url%2Cb%29%20desc%2Ctermfreq%28text_all%2Ca%29%20desc%2Ctermfreq%28text_all%2Cb%29%20desc"
    );
    assert_eq!(
        build_sort_query("rust2021".to_string()),
        "termfreq%28url%2Crust2021%29%20desc%2Ctermfreq%28text_all%2Crust2021%29%20desc"
    );
}

#[test]
fn sort_query_from_given_pieces() {
    let pieces = vec!["".to_string(), "a b".to_string()];
    assert_eq!(
        sort_query_from_pieces(&pieces),
        "termfreq%28url%2Ca%20b%29%20desc%2Ctermfreq%28text_all%2Ca%20b%29%20desc"
    );
}

#[test]
fn search_query_for_two_words() {
    assert_eq!(build_search_query(&vec!["example", "rust"]), "text_all%3Aexample%20text_all%3Arust");
    assert_eq!(build_search_query(&vec![]), "");
    assert_eq!(build_search_query(&vec!["a&b"]), "text_all%3Aa%26b");
}

#[test]
fn select_query_for_a_user_query() {
    assert_eq!(
        build_select_query(&"rust lang".to_string()),
        "text_all%3Arust%20text_all%3Alang&sort=termfreq%28url%2Crust%29%20desc%2Ctermfreq%28url%2Clang%29%20desc%2Ctermfreq%28text_all%2Crust%29%20desc%2Ctermfreq%28text_all%2Clang%29%20desc"
    );
}

#[test]
fn select_query_escapes_before_encoding() {
    assert_eq!(
        build_select_query(&"c++".to_string()),
        "text_all%3Ac%5C%2B%5C%2B&sort=termfreq%28url%2Cc%29%20desc%2Ctermfreq%28text_all%2Cc%29%20desc"
    );
}

#[test]
fn url_encoding_of_bytes() {
    assert_eq!(build_search_query(&vec!["this that"]), "text_all%3Athis%20that");
    assert_eq!(build_search_query(&vec!["&a%b!c.d?e"]), "text_all%3A%26a%25b%21c.d%3Fe");
    assert_eq!(build_search_query(&vec!["a-b_c.d~e"]), "text_all%3Aa-b_c.d~e");
    assert_eq!(build_search_query(&vec!["é"]), "text_all%3A%C3%A9");
    assert_eq!(build_search_query(&vec![""]), "text_all%3A");
}

fn unescape(s: &str) -> String {
    let mut out = String::new();
    let mut chars = s.chars();
    while let Some(c) = chars.next() {
        if c == '\\' {
            match chars.next() {
                Some(d) => out.push(d),
                None => out.push(c),
            }
        } else {
            out.push(c);
        }
    }
    out
}

#[test]
fn escaped_query_reads_back() {
    for q in ["a\\b", "\\", "c++ & (rust)", "plain", "\"quoted\" /path/", ""] {
        assert_eq!(unescape(&sanitize_query(&q.to_string())), q);
    }
}
