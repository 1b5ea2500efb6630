//! Building the search and suggestion requests sent to the search index:
//! escaping of the user's query, the term-frequency sort clause and the
//! per-word search clause.

use vstd::prelude::*;
use vstd::string::StringExecFns;
use crate::text::{
    all_ascii, chars_of, drop_empty, lemma_separated_push, lemma_separated_single, piece_start, push_char, separated_by,
    split_by, split_whitespace, views, words,
};
use crate::urlenc::{encode, url_encoded};

verus! {

/// The characters that the search index's query syntax treats as special.
pub open spec fn is_special(c: char) -> bool {
    c == '\\' || c == '+' || c == '-' || c == '!' || c == '(' || c == ')' || c == ':' || c == '^'
        || c == '[' || c == ']' || c == '"' || c == '{' || c == '}' || c == '~' || c == '*'
        || c == '?' || c == '|' || c == '&' || c == ';' || c == '/'
}

/// One character of a query, escaped with a backslash if it is special.
pub open spec fn escape_char(c: char) -> Seq<char> {
    if is_special(c) {
        seq!['\\', c]
    } else {
        seq![c]
    }
}

/// A query with every special character escaped.
pub open spec fn sanitized(s: Seq<char>) -> Seq<char>
    decreases s.len(),
{
    if s.len() == 0 {
        Seq::empty()
    } else {
        escape_char(s[0]) + sanitized(s.drop_first())
    }
}

/// How the index reads an escaped query back: a backslash takes the next
/// character literally.
pub open spec fn unescaped(s: Seq<char>) -> Seq<char>
    decreases s.len(),
{
    if s.len() == 0 {
        Seq::empty()
    } else if s[0] == '\\' && s.len() >= 2 {
        seq![s[1]] + unescaped(s.skip(2))
    } else {
        seq![s[0]] + unescaped(s.drop_first())
    }
}

proof fn lemma_sanitized_push(s: Seq<char>, c: char)
    ensures
        sanitized(s.push(c)) == sanitized(s) + escape_char(c),
    decreases s.len(),
{
    if s.len() == 0 {
        assert(s.push(c).drop_first() =~= s);
        assert(sanitized(s.push(c)) =~= escape_char(c));
    } else {
        lemma_sanitized_push(s.drop_first(), c);
        assert(s.push(c).drop_first() =~= s.drop_first().push(c));
        assert(sanitized(s.push(c)) =~= sanitized(s) + escape_char(c));
    }
}

/// Escapes the characters of a query that the index's query syntax treats
/// as special, by putting a backslash before each of them.
pub fn sanitize_query(query: &String) -> (r: String)
    ensures
        r@ == sanitized(query@),
{
    let cs = chars_of(query.as_str());
    let mut r = String::new();
    let mut i: usize = 0;
    assert(sanitized(query@.take(0)) =~= Seq::<char>::empty());
    while i < cs.len()
        invariant
            cs@ == query@,
            i <= cs.len(),
            r@ == sanitized(query@.take(i as int)),
        decreases cs.len() - i,
    {
        let c = cs[i];
        proof {
            lemma_sanitized_push(query@.take(i as int), c);
            assert(query@.take(i + 1) =~= query@.take(i as int).push(c));
        }
        if c == '\\' || c == '+' || c == '-' || c == '!' || c == '(' || c == ')' || c == ':'
            || c == '^' || c == '[' || c == ']' || c == '"' || c == '{' || c == '}' || c == '~'
            || c == '*' || c == '?' || c == '|' || c == '&' || c == ';' || c == '/' {
            push_char(&mut r, '\\');
        }
        push_char(&mut r, c);
        assert(r@ =~= sanitized(query@.take(i + 1)));
        i = i + 1;
    }
    assert(query@.take(cs.len() as int) =~= query@);
    r
}

/// Reading an escaped query back gives the query that was escaped: escaping loses
/// nothing and adds nothing.
pub proof fn sanitize_round_trip(q: Seq<char>)
    ensures
        unescaped(sanitized(q)) == q,
    decreases q.len(),
{
    if q.len() > 0 {
        sanitize_round_trip(q.drop_first());
        let rest = sanitized(q.drop_first());
        let s = sanitized(q);
        if is_special(q[0]) {
            assert(s.skip(2) =~= rest);
            assert(unescaped(s) =~= seq![q[0]] + unescaped(rest));
        } else {
            assert(s.drop_first() =~= rest);
            assert(unescaped(s) =~= seq![q[0]] + unescaped(rest));
        }
        assert(q =~= seq![q[0]] + q.drop_first());
    }
}

/// Different queries are escaped differently.
pub proof fn sanitize_injective(a: Seq<char>, b: Seq<char>)
    requires
        sanitized(a) == sanitized(b),
    ensures
        a == b,
{
    sanitize_round_trip(a);
    sanitize_round_trip(b);
}

/// ASCII characters other than letters and digits.
pub open spec fn ascii_non_alphanumeric(c: char) -> bool {
    !((48 <= (c as u32) <= 57) || (65 <= (c as u32) <= 90) || (97 <= (c as u32) <= 122))
}

/// The regular expression that separates the words of a query for
/// sorting: a character that is neither an ASCII letter nor a decimal digit.
pub open spec fn word_separator() -> Seq<char> {
    "[^a-zA-Z\\d]"@
}

/// On ASCII text, the characters that `word_separator` matches.
pub open spec fn word_break() -> spec_fn(char) -> bool {
    |c: char| ascii_non_alphanumeric(c)
}

/// Name for the pieces into which `regex::Regex::split` cuts a string with
/// a regular expression.
pub uninterp spec fn regex_pieces(pattern: Seq<char>, s: Seq<char>) -> Seq<Seq<char>>;

/// Compiles the regular expression with `regex::Regex::new` and splits the
/// string with `Regex::split`; the pieces are named `regex_pieces`. The
/// pattern is the word separator, which compiles. Each match of it is one
/// character, and `split` yields the text between matches, empty pieces
/// included; on an ASCII string the matches are exactly the characters that
/// are not ASCII letters or digits. Which non-ASCII characters `\d` takes
/// as decimal digits is left unstated.
#[verifier::external_body]
pub(crate) fn regex_split(pattern: &str, s: &str) -> (pieces: Vec<String>)
    requires
        pattern@ == word_separator(),
    ensures
        views(pieces@) == regex_pieces(pattern@, s@),
        all_ascii(s@) ==> views(pieces@) == split_by(s@, word_break()),
{
    let re = regex::Regex::new(pattern).unwrap();
    let mut pieces = Vec::new();
    for piece in re.split(s) {
        pieces.push(piece.to_string());
    }
    pieces
}

/// The sort clause on the `url` field for one word.
pub open spec fn url_term(w: Seq<char>) -> Seq<char> {
    "termfreq%28url%2C"@ + url_encoded(w) + "%29%20desc"@ + "%2C"@
}

/// The sort clause on the `text_all` field for one word.
pub open spec fn text_term(w: Seq<char>) -> Seq<char> {
    "termfreq%28text_all%2C"@ + url_encoded(w) + "%29%20desc"@
}

/// The `url` sort clauses of all words, each followed by an encoded comma.
pub open spec fn url_terms(ws: Seq<Seq<char>>) -> Seq<char>
    decreases ws.len(),
{
    if ws.len() == 0 {
        Seq::empty()
    } else {
        url_terms(ws.drop_last()) + url_term(ws.last())
    }
}

/// The `text_all` sort clauses of all words, separated by encoded commas.
pub open spec fn text_terms(ws: Seq<Seq<char>>) -> Seq<char>
    decreases ws.len(),
{
    if ws.len() == 0 {
        Seq::empty()
    } else if ws.len() == 1 {
        text_term(ws[0])
    } else {
        text_terms(ws.drop_last()) + "%2C"@ + text_term(ws.last())
    }
}

/// The URL-encoded sort clause for a list of words: first by the term
/// frequency of each word in `url`, then by its term frequency in
/// `text_all`, all descending.
pub open spec fn sort_clause(ws: Seq<Seq<char>>) -> Seq<char> {
    url_terms(ws) + text_terms(ws)
}

/// The sort clause built from the pieces of a split query; empty pieces
/// are skipped.
pub fn sort_query_from_pieces(pieces: &Vec<String>) -> (r: String)
    ensures
        r@ == sort_clause(drop_empty(views(pieces@))),
{
    let mut st1 = String::new();
    let mut st2 = String::new();
    let mut i: usize = 0;
    let mut any = false;
    let ghost ps = views(pieces@);
    assert(ps.take(0) =~= Seq::<Seq<char>>::empty());
    while i < pieces.len()
        invariant
            ps == views(pieces@),
            i <= pieces.len(),
            st1@ == url_terms(drop_empty(ps.take(i as int))),
            st2@ == text_terms(drop_empty(ps.take(i as int))),
            any == (drop_empty(ps.take(i as int)).len() > 0),
        decreases pieces.len() - i,
    {
        let w = pieces[i].as_str();
        proof {
            assert(ps.take(i + 1).drop_last() =~= ps.take(i as int));
            assert(ps.take(i + 1).last() == w@);
        }
        if w.unicode_len() > 0 {
            let enc = encode(w);
            let ghost d = drop_empty(ps.take(i as int));
            st1.append("termfreq%28url%2C");
            st1.append(enc.as_str());
            st1.append("%29%20desc");
            st1.append("%2C");
            if any {
                st2.append("%2C");
            }
            any = true;
            st2.append("termfreq%28text_all%2C");
            st2.append(enc.as_str());
            st2.append("%29%20desc");
            proof {
                let d2 = drop_empty(ps.take(i + 1));
                assert(d2 == d.push(w@));
                assert(d2.drop_last() =~= d);
                assert(st1@ =~= url_terms(d2));
                if d.len() == 0 {
                    assert(st2@ =~= text_terms(d2));
                } else {
                    assert(st2@ =~= text_terms(d2));
                }
            }
        }
        i = i + 1;
    }
    assert(ps.take(pieces.len() as int) =~= ps);
    st1.append(st2.as_str());
    st1
}

/// The words of a query for sorting: the non-empty pieces between the
/// matches of the word separator.
pub open spec fn sort_words(q: Seq<char>) -> Seq<Seq<char>> {
    drop_empty(regex_pieces(word_separator(), q))
}

/// Builds the sort clause for a sanitized query: the query is split at
/// every character that is not a letter or digit, and each word sorts the
/// results by its term frequency, in `url` first and in `text_all` after.
pub fn build_sort_query(sanitized_query: String) -> (r: String)
    ensures
        r@ == sort_clause(sort_words(sanitized_query@)),
        all_ascii(sanitized_query@) ==> r@ == sort_clause(drop_empty(split_by(sanitized_query@, word_break()))),
{
    let pattern = "[^a-zA-Z\\d]";
    let pieces = regex_split(pattern, sanitized_query.as_str());
    sort_query_from_pieces(&pieces)
}

/// The search clause for one word.
pub open spec fn search_term(w: Seq<char>) -> Seq<char> {
    "text_all%3A"@ + url_encoded(w)
}

/// The search clauses of all words, separated by encoded spaces.
pub open spec fn search_clause(ws: Seq<Seq<char>>) -> Seq<char>
    decreases ws.len(),
{
    if ws.len() == 0 {
        Seq::empty()
    } else if ws.len() == 1 {
        search_term(ws[0])
    } else {
        search_clause(ws.drop_last()) + "%20"@ + search_term(ws.last())
    }
}

/// The views of a sequence of string slices.
pub open spec fn str_views(v: Seq<&str>) -> Seq<Seq<char>> {
    Seq::new(v.len(), |i: int| v[i]@)
}

/// Builds the main search clause: every word must match the `text_all`
/// field.
pub fn build_search_query(words: &Vec<&str>) -> (r: String)
    ensures
        r@ == search_clause(str_views(words@)),
{
    let mut r = String::new();
    let mut i: usize = 0;
    let ghost ws = str_views(words@);
    assert(ws.take(0) =~= Seq::<Seq<char>>::empty());
    while i < words.len()
        invariant
            ws == str_views(words@),
            i <= words.len(),
            r@ == search_clause(ws.take(i as int)),
        decreases words.len() - i,
    {
        let w = words[i];
        if i > 0 {
            r.append("%20");
        }
        r.append("text_all%3A");
        let enc = encode(w);
        r.append(enc.as_str());
        proof {
            assert(ws.take(i + 1).drop_last() =~= ws.take(i as int));
            assert(ws.take(i + 1).last() == w@);
            assert(r@ =~= search_clause(ws.take(i + 1)));
        }
        i = i + 1;
    }
    assert(ws.take(words.len() as int) =~= ws);
    r
}

/// The select request for a user's query: its whitespace-separated words
/// (after escaping) must all match, and the results are sorted by the term
/// frequencies of its alphanumeric words.
pub open spec fn select_request(q: Seq<char>) -> Seq<char> {
    search_clause(words(sanitized(q))) + "&sort="@ + sort_clause(sort_words(sanitized(q)))
}

/// Escaping keeps a query ASCII: the backslash is ASCII.
pub proof fn sanitized_ascii(q: Seq<char>)
    requires
        all_ascii(q),
    ensures
        all_ascii(sanitized(q)),
    decreases q.len(),
{
    if q.len() > 0 {
        sanitized_ascii(q.drop_first());
        let head = escape_char(q[0]);
        let rest = sanitized(q.drop_first());
        assert(sanitized(q) == head + rest);
        assert forall|i: int| 0 <= i < sanitized(q).len() implies (sanitized(q)[i] as u32) < 128 by {
            if i < head.len() {
                assert(head[i] == '\\' || head[i] == q[0]);
            } else {
                assert(sanitized(q)[i] == rest[i - head.len()]);
            }
        }
    }
}

/// Builds the select request for a user's query.
pub fn build_select_query(query: &String) -> (r: String)
    ensures
        r@ == select_request(query@),
        all_ascii(query@) ==> r@ == search_clause(words(sanitized(query@))) + "&sort="@
            + sort_clause(drop_empty(split_by(sanitized(query@), word_break()))),
{
    let sanitized_query = sanitize_query(query);
    let split = split_whitespace(sanitized_query.as_str());
    let mut refs: Vec<&str> = Vec::new();
    let mut i: usize = 0;
    while i < split.len()
        invariant
            i <= split.len(),
            refs@.len() == i,
            forall|k: int| 0 <= k < i ==> refs@[k]@ == split@[k]@,
        decreases split.len() - i,
    {
        refs.push(split[i].as_str());
        i = i + 1;
    }
    assert(str_views(refs@) =~= views(split@));
    let mut r = build_search_query(&refs);
    r.append("&sort=");
    proof {
        if all_ascii(query@) {
            sanitized_ascii(query@);
        }
    }
    let sort = build_sort_query(sanitized_query);
    r.append(sort.as_str());
    r
}


/// The search clause holds one `text_all` term per word, in order, with an
/// encoded space between each two and nothing else.
pub proof fn search_clause_lays_out_terms(ws: Seq<Seq<char>>)
    ensures
        separated_by(search_clause(ws), ws.map_values(|w: Seq<char>| search_term(w)), "%20"@),
    decreases ws.len(),
{
    let f = |w: Seq<char>| search_term(w);
    if ws.len() == 0 {
        assert(ws.map_values(f) =~= Seq::<Seq<char>>::empty());
    } else if ws.len() == 1 {
        assert(ws.map_values(f) =~= seq![search_term(ws[0])]);
        lemma_separated_single(search_term(ws[0]), "%20"@);
    } else {
        search_clause_lays_out_terms(ws.drop_last());
        assert(ws.map_values(f) =~= ws.drop_last().map_values(f).push(search_term(ws.last())));
        lemma_separated_push(search_clause(ws.drop_last()), ws.drop_last().map_values(f), "%20"@, search_term(ws.last()));
    }
}

proof fn lemma_url_terms_laid_out(ws: Seq<Seq<char>>)
    ensures
        separated_by(url_terms(ws), ws.map_values(|w: Seq<char>| url_term(w)), Seq::<char>::empty()),
    decreases ws.len(),
{
    let f = |w: Seq<char>| url_term(w);
    let e = Seq::<char>::empty();
    if ws.len() == 0 {
        assert(ws.map_values(f) =~= Seq::<Seq<char>>::empty());
    } else if ws.len() == 1 {
        assert(ws.map_values(f) =~= seq![url_term(ws[0])]);
        assert(url_terms(ws.drop_last()) == Seq::<char>::empty());
        assert(ws.last() == ws[0]);
        assert(url_terms(ws) =~= url_term(ws[0]));
        lemma_separated_single(url_term(ws[0]), e);
    } else {
        lemma_url_terms_laid_out(ws.drop_last());
        assert(ws.map_values(f) =~= ws.drop_last().map_values(f).push(url_term(ws.last())));
        lemma_separated_push(url_terms(ws.drop_last()), ws.drop_last().map_values(f), e, url_term(ws.last()));
        assert(url_terms(ws.drop_last()) + e + url_term(ws.last()) =~= url_terms(ws));
    }
}

proof fn lemma_text_terms_laid_out(ws: Seq<Seq<char>>)
    ensures
        separated_by(text_terms(ws), ws.map_values(|w: Seq<char>| text_term(w)), "%2C"@),
    decreases ws.len(),
{
    let f = |w: Seq<char>| text_term(w);
    if ws.len() == 0 {
        assert(ws.map_values(f) =~= Seq::<Seq<char>>::empty());
    } else if ws.len() == 1 {
        assert(ws.map_values(f) =~= seq![text_term(ws[0])]);
        lemma_separated_single(text_term(ws[0]), "%2C"@);
    } else {
        lemma_text_terms_laid_out(ws.drop_last());
        assert(ws.map_values(f) =~= ws.drop_last().map_values(f).push(text_term(ws.last())));
        lemma_separated_push(text_terms(ws.drop_last()), ws.drop_last().map_values(f), "%2C"@, text_term(ws.last()));
    }
}

/// The sort clause is the `url` term of every word, one right after the
/// other, followed by the `text_all` term of every word with an encoded
/// comma between each two: one term of each kind per word, in order.
pub proof fn sort_clause_lays_out_terms(ws: Seq<Seq<char>>)
    ensures
        ({
            let us = ws.map_values(|w: Seq<char>| url_term(w));
            let n = piece_start(us, 0, ws.len() as int);
            &&& 0 <= n <= sort_clause(ws).len()
            &&& separated_by(sort_clause(ws).take(n), us, Seq::<char>::empty())
            &&& separated_by(sort_clause(ws).skip(n), ws.map_values(|w: Seq<char>| text_term(w)), "%2C"@)
        }),
{
    lemma_url_terms_laid_out(ws);
    lemma_text_terms_laid_out(ws);
    let u = url_terms(ws);
    let t = text_terms(ws);
    let us = ws.map_values(|w: Seq<char>| url_term(w));
    assert(piece_start(us, 0, 0) == 0);
    assert(u.len() == piece_start(us, 0, ws.len() as int));
    assert((u + t).take(u.len() as int) =~= u);
    assert((u + t).skip(u.len() as int) =~= t);
}

} // verus!
