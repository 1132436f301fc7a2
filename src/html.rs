//! Queries on publisher pages, answered by the `select` HTML parser.
//!
//! Each query is a function of the page's text alone; its result is named by a
//! specification function that the parser's behaviour defines.
use vstd::prelude::*;

use select::document::Document;
use select::predicate::{And, Attr, Class, Descendant, Name, Not};

use crate::text::buffers_of;

verus! {

/// The text of each `script` element with neither an `id` nor a `src`
/// attribute, in document order.
pub uninterp spec fn inline_scripts_of(html: Seq<char>) -> Seq<Seq<u8>>;

/// Relies on select's `Document::from`, `find` and `Node::text`: the parsed
/// page's inline scripts, each as the UTF-8 bytes of its text.
#[verifier::external_body]
pub(crate) fn inline_scripts(html: &str) -> (r: Vec<Vec<u8>>)
    ensures
        buffers_of(r@) == inline_scripts_of(html@),
{
    let doc = Document::from(html);
    doc.find(And(Name("script"), And(Not(Attr("id", ())), Not(Attr("src", ())))))
        .map(|n| n.text().into_bytes())
        .collect()
}

/// The `value` attribute of each `input` element named `authenticity_token`,
/// in document order.
pub uninterp spec fn token_values_of(html: Seq<char>) -> Seq<Option<Seq<char>>>;

/// Relies on select's `Document::from`, `find` and `Node::attr`.
#[verifier::external_body]
pub(crate) fn token_values(html: &str) -> (r: Vec<Option<String>>)
    ensures
        r.deep_view() == token_values_of(html@),
{
    let doc = Document::from(html);
    doc.find(And(Name("input"), Attr("name", "authenticity_token")))
        .map(|n| n.attr("value").map(String::from))
        .collect()
}

/// For each `li.item` inside a `ul.section_episode_list`, in document order:
/// its `data-no` attribute, the text of its first `.name` element, and the
/// `href` of its first `a.link` element.
pub uninterp spec fn list_items_of(html: Seq<char>) -> Seq<
    (Option<Seq<char>>, Option<Seq<char>>, Option<Seq<char>>),
>;

/// Relies on select's `Document::from`, `find`, `Node::attr` and `Node::text`.
#[verifier::external_body]
pub(crate) fn list_items(html: &str) -> (r: Vec<(Option<String>, Option<String>, Option<String>)>)
    ensures
        r.deep_view() == list_items_of(html@),
{
    let doc = Document::from(html);
    let list = And(Name("ul"), Class("section_episode_list"));
    doc.find(Descendant(list, And(Name("li"), Class("item"))))
        .map(|li| (
            li.attr("data-no").map(String::from),
            li.find(Class("name")).next().map(|n| n.text()),
            li.find(And(Name("a"), Class("link"))).next().and_then(|a| a.attr("href")).map(String::from),
        ))
        .collect()
}

/// The `content` attribute of each `meta` element whose `property` is
/// `og:title`, in document order.
pub uninterp spec fn og_titles_of(html: Seq<char>) -> Seq<Option<Seq<char>>>;

/// Relies on select's `Document::from`, `find` and `Node::attr`.
#[verifier::external_body]
pub(crate) fn og_titles(html: &str) -> (r: Vec<Option<String>>)
    ensures
        r.deep_view() == og_titles_of(html@),
{
    let doc = Document::from(html);
    doc.find(And(Name("meta"), Attr("property", "og:title")))
        .map(|n| n.attr("content").map(String::from))
        .collect()
}

/// Within the first `.wt_viewer` element, if there is one: the `src`
/// attribute of each `img` element, in document order.
pub uninterp spec fn viewer_images_of(html: Seq<char>) -> Option<Seq<Option<Seq<char>>>>;

/// Relies on select's `Document::from`, `find` and `Node::attr`.
#[verifier::external_body]
pub(crate) fn viewer_images(html: &str) -> (r: Option<Vec<Option<String>>>)
    ensures
        r.deep_view() == viewer_images_of(html@),
{
    let doc = Document::from(html);
    doc.find(Class("wt_viewer"))
        .next()
        .map(|v| v.find(Name("img")).map(|i| i.attr("src").map(String::from)).collect())
}

/// Within the first `.tit_area` element, if there is one: the text of its
/// first `h3` element, if it has one.
pub uninterp spec fn episode_heading_of(html: Seq<char>) -> Option<Option<Seq<char>>>;

/// Relies on select's `Document::from`, `find` and `Node::text`.
#[verifier::external_body]
pub(crate) fn episode_heading(html: &str) -> (r: Option<Option<String>>)
    ensures
        r.deep_view() == episode_heading_of(html@),
{
    let doc = Document::from(html);
    doc.find(Class("tit_area")).next().map(|t| t.find(Name("h3")).next().map(|h| h.text()))
}

} // verus!
