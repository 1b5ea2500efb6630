//! Keyword-based classification of pages into genres.

use vstd::prelude::*;
use crate::text::{contains_str, has_substring, lowercase, owned, to_lowercase, views};

verus! {

/// `lc` contains the keyword `k`.
pub open spec fn has(lc: Seq<char>, k: &str) -> bool {
    has_substring(lc, k@)
}

/// The genre that the quick page check gives to an already lowercased body.
pub open spec fn quick_type(lc: Seq<char>) -> Seq<char> {
    if (has(lc, "install") && has(lc, "version")) || has(lc, "maintained") || has(lc, "develop") {
        "product"@
    } else if has(lc, "author") || has(lc, "article") {
        "article"@
    } else {
        "default"@
    }
}

/// Classifies a lowercased page body by its keywords.
pub fn website_type_of_lowercase(body_lc: &str) -> (r: &'static str)
    ensures
        r@ == quick_type(body_lc@),
{
    if (contains_str(body_lc, "install") && contains_str(body_lc, "version"))
        || contains_str(body_lc, "maintained") || contains_str(body_lc, "develop") {
        "product"
    } else if contains_str(body_lc, "author") || contains_str(body_lc, "article") {
        "article"
    } else {
        "default"
    }
}

/// Classifies a page body by its keywords, ignoring case.
pub fn website_type(body: &str) -> (r: &'static str)
    ensures
        r@ == quick_type(lowercase(body@)),
{
    let body_lc = to_lowercase(body);
    website_type_of_lowercase(body_lc.as_str())
}

/// The genre that one lowercased metadata value announces, if any.
pub open spec fn meta_genre(lc: Seq<char>) -> Option<Seq<char>> {
    if has(lc, "og:article") {
        Some("article"@)
    } else if has(lc, "og:book") {
        Some("product"@)
    } else if has(lc, "og:website") {
        Some("website"@)
    } else if has(lc, "og:profile") {
        Some("social"@)
    } else {
        None
    }
}

/// The genre announced by the first metadata value that announces one.
pub open spec fn first_meta_genre(metas_lc: Seq<Seq<char>>) -> Option<Seq<char>>
    decreases metas_lc.len(),
{
    if metas_lc.len() == 0 {
        None
    } else {
        match meta_genre(metas_lc[0]) {
            Some(g) => Some(g),
            None => first_meta_genre(metas_lc.drop_first()),
        }
    }
}

/// The genre that the keywords of a lowercased body give.
pub open spec fn body_genre(lc: Seq<char>) -> Seq<char> {
    if ((has(lc, "install") || has(lc, "get started")) && has(lc, "version"))
        || (has(lc, "maintained") && has(lc, "develop")) {
        "product"@
    } else if (has(lc, "author") && has(lc, "article")) || has(lc, "written by") || has(lc, "further reading") {
        "article"@
    } else {
        "default"@
    }
}

/// The offline genre of a page: the metadata decide first, the body after.
pub open spec fn offline_genre(body_lc: Seq<char>, metas_lc: Seq<Seq<char>>) -> Seq<char> {
    match first_meta_genre(metas_lc) {
        Some(g) => g,
        None => body_genre(body_lc),
    }
}

/// The genres that offline classification can give.
pub open spec fn is_known_genre(g: Seq<char>) -> bool {
    g == "article"@ || g == "product"@ || g == "website"@ || g == "social"@ || g == "default"@
}

/// Offline classification from a lowercased body and lowercased metadata values.
pub fn genre_of_lowercase(body_lc: &str, metas_lc: &Vec<String>) -> (g: String)
    ensures
        g@ == offline_genre(body_lc@, views(metas_lc@)),
{
    let mut i: usize = 0;
    assert(views(metas_lc@).skip(0) =~= views(metas_lc@));
    while i < metas_lc.len()
        invariant
            i <= metas_lc.len(),
            first_meta_genre(views(metas_lc@)) == first_meta_genre(views(metas_lc@).skip(i as int)),
        decreases metas_lc.len() - i,
    {
        let m = metas_lc[i].as_str();
        proof {
            let rest = views(metas_lc@).skip(i as int);
            assert(rest[0] == m@);
            assert(rest.drop_first() =~= views(metas_lc@).skip(i + 1));
        }
        if contains_str(m, "og:article") {
            return owned("article");
        } else if contains_str(m, "og:book") {
            return owned("product");
        } else if contains_str(m, "og:website") {
            return owned("website");
        } else if contains_str(m, "og:profile") {
            return owned("social");
        }
        i = i + 1;
    }
    proof {
        assert(views(metas_lc@).skip(metas_lc.len() as int).len() == 0);
    }
    if ((contains_str(body_lc, "install") || contains_str(body_lc, "get started"))
        && contains_str(body_lc, "version"))
        || (contains_str(body_lc, "maintained") && contains_str(body_lc, "develop")) {
        owned("product")
    } else if (contains_str(body_lc, "author") && contains_str(body_lc, "article"))
        || contains_str(body_lc, "written by") || contains_str(body_lc, "further reading") {
        owned("article")
    } else {
        owned("default")
    }
}

/// Offline classification always yields one of the known genres.
pub proof fn lemma_offline_genre_known(body_lc: Seq<char>, metas_lc: Seq<Seq<char>>)
    ensures
        is_known_genre(offline_genre(body_lc, metas_lc)),
    decreases metas_lc.len(),
{
    if metas_lc.len() > 0 && meta_genre(metas_lc[0]) is None {
        lemma_offline_genre_known(body_lc, metas_lc.drop_first());
    }
}


/// A lowercased metadata value names none of the genres `og:article`,
/// `og:book`, `og:website` and `og:profile`.
pub open spec fn names_no_genre(m: Seq<char>) -> bool {
    !has_substring(m, "og:article"@) && !has_substring(m, "og:book"@) && !has_substring(m, "og:website"@)
        && !has_substring(m, "og:profile"@)
}

proof fn lemma_no_meta_genre(metas_lc: Seq<Seq<char>>)
    requires
        forall|i: int| 0 <= i < metas_lc.len() ==> names_no_genre(#[trigger] metas_lc[i]),
    ensures
        first_meta_genre(metas_lc) is None,
    decreases metas_lc.len(),
{
    if metas_lc.len() > 0 {
        assert(names_no_genre(metas_lc[0]));
        assert forall|i: int| 0 <= i < metas_lc.drop_first().len() implies names_no_genre(#[trigger] metas_lc.drop_first()[i]) by {
            assert(metas_lc.drop_first()[i] == metas_lc[i + 1]);
        }
        lemma_no_meta_genre(metas_lc.drop_first());
    }
}

proof fn lemma_first_naming_meta(metas_lc: Seq<Seq<char>>, k: int)
    requires
        0 <= k < metas_lc.len(),
        forall|i: int| 0 <= i < k ==> names_no_genre(#[trigger] metas_lc[i]),
    ensures
        first_meta_genre(metas_lc) == first_meta_genre(metas_lc.skip(k)),
    decreases k,
{
    if k > 0 {
        assert(names_no_genre(metas_lc[0]));
        let rest = metas_lc.drop_first();
        assert forall|i: int| 0 <= i < k - 1 implies names_no_genre(#[trigger] rest[i]) by {
            assert(rest[i] == metas_lc[i + 1]);
        }
        lemma_first_naming_meta(rest, k - 1);
        assert(rest.skip(k - 1) =~= metas_lc.skip(k));
    } else {
        assert(metas_lc.skip(0) =~= metas_lc);
    }
}

/// The first metadata value that names a genre decides the page's genre:
/// `og:article` gives "article", else `og:book` "product", else `og:website`
/// "website", else `og:profile` "social", whatever the body says.
pub proof fn first_naming_metadata_decides(body_lc: Seq<char>, metas_lc: Seq<Seq<char>>, k: int)
    requires
        0 <= k < metas_lc.len(),
        forall|i: int| 0 <= i < k ==> names_no_genre(#[trigger] metas_lc[i]),
        !names_no_genre(metas_lc[k]),
    ensures
        has_substring(metas_lc[k], "og:article"@) ==> offline_genre(body_lc, metas_lc) == "article"@,
        !has_substring(metas_lc[k], "og:article"@) && has_substring(metas_lc[k], "og:book"@)
            ==> offline_genre(body_lc, metas_lc) == "product"@,
        !has_substring(metas_lc[k], "og:article"@) && !has_substring(metas_lc[k], "og:book"@)
            && has_substring(metas_lc[k], "og:website"@) ==> offline_genre(body_lc, metas_lc) == "website"@,
        !has_substring(metas_lc[k], "og:article"@) && !has_substring(metas_lc[k], "og:book"@)
            && !has_substring(metas_lc[k], "og:website"@) ==> offline_genre(body_lc, metas_lc) == "social"@,
{
    lemma_first_naming_meta(metas_lc, k);
    assert(metas_lc.skip(k)[0] == metas_lc[k]);
}

/// Where no metadata value names a genre, the body's keywords decide, case
/// ignored by the caller: installation or getting-started text together with
/// a version, or "maintained" together with "develop", make a product; else
/// "author" together with "article", or "written by", or "further reading"
/// make an article; anything else is "default".
pub proof fn body_keywords_decide_genre(body_lc: Seq<char>, metas_lc: Seq<Seq<char>>)
    requires
        forall|i: int| 0 <= i < metas_lc.len() ==> names_no_genre(#[trigger] metas_lc[i]),
    ensures
        ({
            let product = ((has_substring(body_lc, "install"@) || has_substring(body_lc, "get started"@))
                && has_substring(body_lc, "version"@)) || (has_substring(body_lc, "maintained"@)
                && has_substring(body_lc, "develop"@));
            let article = (has_substring(body_lc, "author"@) && has_substring(body_lc, "article"@))
                || has_substring(body_lc, "written by"@) || has_substring(body_lc, "further reading"@);
            &&& product ==> offline_genre(body_lc, metas_lc) == "product"@
            &&& !product && article ==> offline_genre(body_lc, metas_lc) == "article"@
            &&& !product && !article ==> offline_genre(body_lc, metas_lc) == "default"@
        }),
{
    lemma_no_meta_genre(metas_lc);
}


/// The quick page check: installation text with a version, "maintained" or
/// "develop" make a product; else "author" or "article" make an article;
/// anything else is "default".
pub proof fn quick_keywords_decide_type(lc: Seq<char>)
    ensures
        ({
            let product = (has_substring(lc, "install"@) && has_substring(lc, "version"@))
                || has_substring(lc, "maintained"@) || has_substring(lc, "develop"@);
            let article = has_substring(lc, "author"@) || has_substring(lc, "article"@);
            &&& product ==> quick_type(lc) == "product"@
            &&& !product && article ==> quick_type(lc) == "article"@
            &&& !product && !article ==> quick_type(lc) == "default"@
        }),
{
}

} // verus!
