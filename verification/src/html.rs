//! Reading elements out of an HTML document through the `scraper` crate.
//! Each reader parses the whole document with `Html::parse_document` and
//! selects elements by their tag name.

use vstd::prelude::*;
use vstd::multiset::Multiset;
use crate::text::views;

verus! {

/// A tag name that a type selector can name: one or more ASCII lowercase letters.
pub open spec fn is_tag_name(tag: Seq<char>) -> bool {
    tag.len() > 0 && forall|i: int| 0 <= i < tag.len() ==> 'a' <= #[trigger] tag[i] <= 'z'
}

/// Name for whether the document has an element with the given tag name.
pub uninterp spec fn has_element(html: Seq<char>, tag: Seq<char>) -> bool;

/// Name for whether every child node of the first element of the document
/// with the given tag name is a text node: no element, comment or other node
/// stands among them (an HTML `<title>` holds only text).
pub uninterp spec fn first_has_only_text_children(html: Seq<char>, tag: Seq<char>) -> bool;

/// One character of text as the HTML serializer writes it: `&`, U+00A0,
/// `<` and `>` as character references, anything else as it is.
pub open spec fn html_escape_char(c: char) -> Seq<char> {
    if c == '&' {
        "&amp;"@
    } else if c == '\u{A0}' {
        "&nbsp;"@
    } else if c == '<' {
        "&lt;"@
    } else if c == '>' {
        "&gt;"@
    } else {
        seq![c]
    }
}

/// Text as the HTML serializer writes it, character after character.
pub open spec fn html_escaped(s: Seq<char>) -> Seq<char>
    decreases s.len(),
{
    if s.len() == 0 {
        Seq::empty()
    } else {
        html_escaped(s.drop_last()) + html_escape_char(s.last())
    }
}

/// Texts one after the other.
pub open spec fn concat_all(ts: Seq<Seq<char>>) -> Seq<char>
    decreases ts.len(),
{
    if ts.len() == 0 {
        Seq::empty()
    } else {
        concat_all(ts.drop_last()) + ts.last()
    }
}

/// Name for the descendant text nodes, in document order, of the first
/// element of the document with the given tag name, if there is one.
pub uninterp spec fn first_text_nodes(html: Seq<char>, tag: Seq<char>) -> Option<Seq<Seq<char>>>;

/// Name for the attribute values of each element with the given tag name,
/// in document order; the values of one element form a multiset.
pub uninterp spec fn attribute_values(html: Seq<char>, tag: Seq<char>) -> Seq<Multiset<Seq<char>>>;

/// Name for the value of one attribute of each element with the given tag
/// name, in document order (`None` where the element lacks it).
pub uninterp spec fn attribute_of_each(html: Seq<char>, tag: Seq<char>, attr: Seq<char>) -> Seq<Option<Seq<char>>>;

/// The views of optional strings.
pub open spec fn opt_views(v: Seq<Option<String>>) -> Seq<Option<Seq<char>>> {
    Seq::new(v.len(), |i: int| match v[i] {
        Some(s) => Some(s@),
        None => None,
    })
}

/// Parses the document with `scraper::Html::parse_document`, selects the
/// elements named `tag` with `scraper::Selector::parse(tag)` (a type
/// selector, which parses for every tag name of lowercase letters) and returns
/// `inner_html()` of the first of them. `inner_html` serializes the child
/// nodes with no enclosing element on the serializer's stack, so it escapes
/// every child text node (`html5ever::serialize`, `write_text` and
/// `write_escaped`); where all children are text nodes, the result is those
/// texts, escaped, one after the other, and they are also the descendant
/// text nodes that `text()` yields. Otherwise the inner HTML writes out the
/// attributes of each child element in the order of a `HashMap` whose hasher
/// every process seeds anew, so what it holds is left unstated there.
#[verifier::external_body]
pub(crate) fn select_first_inner_html(html: &str, tag: &str) -> (r: Option<String>)
    requires
        is_tag_name(tag@),
    ensures
        r is Some <==> has_element(html@, tag@),
        r is Some ==> first_text_nodes(html@, tag@) is Some,
        r is Some && first_has_only_text_children(html@, tag@)
            ==> r->0@ == html_escaped(concat_all(first_text_nodes(html@, tag@)->0)),
{
    let document = scraper::Html::parse_document(html);
    let selector = scraper::Selector::parse(tag).unwrap();
    match document.select(&selector).next() {
        Some(element) => Some(element.inner_html()),
        None => None,
    }
}

/// Parses the document with `scraper::Html::parse_document`, selects the
/// elements named `tag` and returns the text nodes that `text()` yields for
/// the first of them.
#[verifier::external_body]
pub(crate) fn select_first_text_nodes(html: &str, tag: &str) -> (r: Option<Vec<String>>)
    requires
        is_tag_name(tag@),
    ensures
        r matches Some(v) ==> first_text_nodes(html@, tag@) == Some(views(v@)),
        r is None ==> first_text_nodes(html@, tag@) is None,
{
    let document = scraper::Html::parse_document(html);
    let selector = scraper::Selector::parse(tag).unwrap();
    match document.select(&selector).next() {
        Some(element) => {
            let mut texts = Vec::new();
            for t in element.text() {
                texts.push(t.to_string());
            }
            Some(texts)
        },
        None => None,
    }
}

/// Parses the document with `scraper::Html::parse_document`, selects the
/// elements named `tag` and returns, for each of them in document order, the
/// values that `value().attrs()` yields. `scraper` keeps an element's
/// attributes in a `HashMap`, so the order of the values of one element is
/// left unstated; their multiset is named.
#[verifier::external_body]
pub(crate) fn select_attribute_values(html: &str, tag: &str) -> (r: Vec<Vec<String>>)
    requires
        is_tag_name(tag@),
    ensures
        r@.len() == attribute_values(html@, tag@).len(),
        forall|i: int| 0 <= i < r@.len() ==> #[trigger] views(r@[i]@).to_multiset() == attribute_values(html@, tag@)[i],
{
    let document = scraper::Html::parse_document(html);
    let selector = scraper::Selector::parse(tag).unwrap();
    let mut groups = Vec::new();
    for element in document.select(&selector) {
        let mut values = Vec::new();
        for attr in element.value().attrs() {
            values.push(attr.1.to_string());
        }
        groups.push(values);
    }
    groups
}

/// Parses the document with `scraper::Html::parse_document`, selects the
/// elements named `tag` and returns, for each of them in document order,
/// `value().attr(attr)`.
#[verifier::external_body]
pub(crate) fn select_attribute_of_each(html: &str, tag: &str, attr: &str) -> (r: Vec<Option<String>>)
    requires
        is_tag_name(tag@),
    ensures
        opt_views(r@) == attribute_of_each(html@, tag@, attr@),
{
    let document = scraper::Html::parse_document(html);
    let selector = scraper::Selector::parse(tag).unwrap();
    let mut values = Vec::new();
    for element in document.select(&selector) {
        match element.value().attr(attr) {
            Some(v) => values.push(Some(v.to_string())),
            None => values.push(None),
        }
    }
    values
}

} // verus!
