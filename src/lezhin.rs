//! Reading Lezhin's pages: the product object embedded in an inline script of
//! the comic page, the episodes it lists, and the viewer API's answer.
use vstd::prelude::*;

use crate::error::Error;
use crate::html::{inline_scripts, inline_scripts_of, token_values, token_values_of};
use crate::model::{
    copy_text, descriptor_views, DescriptorView, EpisodeDescriptor, EpisodeRef, Listing, RefView,
};
use crate::crawl::numbers_distinct;
use crate::text::{buffers_of, bytes_of, find, find_bytes, lemma_find_from_first, same_text, slice_bytes};

verus! {

/// The text `__LZ_PRODUCT__ = `, which opens the product variable.
pub open spec fn product_start() -> Seq<u8> {
    seq![95u8, 95, 76, 90, 95, 80, 82, 79, 68, 85, 67, 84, 95, 95, 32, 61, 32]
}

/// The text `__LZ_DATA__`, the variable that follows the product variable.
pub open spec fn data_start() -> Seq<u8> {
    seq![95u8, 95, 76, 90, 95, 68, 65, 84, 65, 95, 95]
}

/// The text `product: `, which opens the product attribute.
pub open spec fn attr_start() -> Seq<u8> {
    seq![112u8, 114, 111, 100, 117, 99, 116, 58, 32]
}

/// The text `,` newline, eight spaces, `departure`: the attribute after the
/// product attribute.
pub open spec fn attr_end() -> Seq<u8> {
    seq![44u8, 10, 32, 32, 32, 32, 32, 32, 32, 32, 100, 101, 112, 97, 114, 116, 117, 114, 101]
}

fn product_start_bytes() -> (r: Vec<u8>)
    ensures
        r@ == product_start(),
{
    let r = vec![95u8, 95, 76, 90, 95, 80, 82, 79, 68, 85, 67, 84, 95, 95, 32, 61, 32];
    assert(r@ =~= product_start());
    r
}

fn data_start_bytes() -> (r: Vec<u8>)
    ensures
        r@ == data_start(),
{
    let r = vec![95u8, 95, 76, 90, 95, 68, 65, 84, 65, 95, 95];
    assert(r@ =~= data_start());
    r
}

fn attr_start_bytes() -> (r: Vec<u8>)
    ensures
        r@ == attr_start(),
{
    let r = vec![112u8, 114, 111, 100, 117, 99, 116, 58, 32];
    assert(r@ =~= attr_start());
    r
}

fn attr_end_bytes() -> (r: Vec<u8>)
    ensures
        r@ == attr_end(),
{
    let r = vec![44u8, 10, 32, 32, 32, 32, 32, 32, 32, 32, 100, 101, 112, 97, 114, 116, 117, 114, 101];
    assert(r@ =~= attr_end());
    r
}

/// The bytes between the first occurrence of `open` and the first occurrence
/// of `close`, when `close` comes at or after the end of `open`.
pub open spec fn between(t: Seq<u8>, open: Seq<u8>, close: Seq<u8>) -> Option<Seq<u8>> {
    match (find(t, open), find(t, close)) {
        (Some(s), Some(e)) => if s + open.len() <= e {
            Some(t.subrange(s + open.len(), e))
        } else {
            None
        },
        _ => None,
    }
}

/// The JSON text of the product object in one script's text: inside the
/// product variable, the product attribute up to the attribute that follows it.
pub open spec fn product_frame(t: Seq<u8>) -> Option<Seq<u8>> {
    match between(t, product_start(), data_start()) {
        Some(inner) => between(inner, attr_start(), attr_end()),
        None => None,
    }
}

/// The product object's JSON text in the first script that holds one.
pub open spec fn first_product_frame(scripts: Seq<Seq<u8>>) -> Option<Seq<u8>>
    decreases scripts.len(),
{
    if scripts.len() == 0 {
        None
    } else {
        match product_frame(scripts[0]) {
            Some(f) => Some(f),
            None => first_product_frame(scripts.drop_first()),
        }
    }
}

fn between_exec(t: &[u8], open: &[u8], close: &[u8]) -> (r: Option<Vec<u8>>)
    ensures
        bytes_of(r) == between(t@, open@, close@),
{
    let s = find_bytes(t, open);
    let e = find_bytes(t, close);
    proof {
        lemma_find_from_first(t@, open@, 0);
        lemma_find_from_first(t@, close@, 0);
    }
    match (s, e) {
        (Some(s), Some(e)) => {
            if s <= e && open.len() <= e - s {
                Some(slice_bytes(t, s + open.len(), e))
            } else {
                None
            }
        },
        _ => None,
    }
}

/// The product object's JSON text in one script's text.
pub fn frame_product(t: &[u8]) -> (r: Option<Vec<u8>>)
    ensures
        bytes_of(r) == product_frame(t@),
{
    let ps = product_start_bytes();
    let ds = data_start_bytes();
    match between_exec(t, ps.as_slice(), ds.as_slice()) {
        Some(inner) => {
            let a = attr_start_bytes();
            let b = attr_end_bytes();
            between_exec(inner.as_slice(), a.as_slice(), b.as_slice())
        },
        None => None,
    }
}

/// The product object's JSON text, from the texts of a page's inline scripts
/// in document order: taken from the first script that holds it. Fails when
/// no script does.
pub fn product_json(scripts: &Vec<Vec<u8>>) -> (r: Result<Vec<u8>, Error>)
    ensures
        match first_product_frame(buffers_of(scripts@)) {
            Some(f) => r matches Ok(j) && j@ == f,
            None => r == Err::<Vec<u8>, Error>(Error::ExtractionFailure),
        },
{
    let mut i: usize = 0;
    assert(buffers_of(scripts@).subrange(0, scripts@.len() as int) =~= buffers_of(scripts@));
    while i < scripts.len()
        invariant
            i <= scripts@.len(),
            first_product_frame(buffers_of(scripts@)) == first_product_frame(
                buffers_of(scripts@).subrange(i as int, scripts@.len() as int),
            ),
        decreases scripts@.len() - i,
    {
        let ghost rest = buffers_of(scripts@).subrange(i as int, scripts@.len() as int);
        assert(rest[0] == scripts[i as int]@);
        assert(rest.drop_first() =~= buffers_of(scripts@).subrange(i + 1, scripts@.len() as int));
        match frame_product(scripts[i].as_slice()) {
            Some(f) => {
                return Ok(f);
            },
            None => {},
        }
        i = i + 1;
    }
    assert(buffers_of(scripts@).subrange(i as int, scripts@.len() as int).len() == 0);
    Err(Error::ExtractionFailure)
}

/// One entry of the product object's episode list.
#[derive(Debug, Clone)]
pub struct EpisodeMeta {
    /// The episode's name in the viewer API: a number with an optional prefix.
    pub name: String,
    /// The title shown for the episode.
    pub title: Option<String>,
    /// The display type: `n` for a notice, `g`, `p` or `e` for content.
    pub kind: Option<String>,
    /// When the episode becomes free, in milliseconds since the epoch.
    pub freed_at: Option<i64>,
}

/// The product object of a comic page.
#[derive(Debug, Clone)]
pub struct Product {
    /// The comic's display title.
    pub title: Option<String>,
    /// The episodes, newest first.
    pub episodes: Vec<EpisodeMeta>,
}

/// An episode that carries content: one whose display type is given and is
/// not the notice type.
pub open spec fn is_content(m: EpisodeMeta) -> bool {
    match m.kind {
        Some(k) => k@ != "n"@,
        None => false,
    }
}

/// The content episodes of a newest-first list, oldest first.
pub open spec fn content_oldest_first(s: Seq<EpisodeMeta>) -> Seq<EpisodeMeta>
    decreases s.len(),
{
    if s.len() == 0 {
        Seq::empty()
    } else if is_content(s[0]) {
        content_oldest_first(s.drop_first()).push(s[0])
    } else {
        content_oldest_first(s.drop_first())
    }
}

/// The descriptor of a content episode that the crawl numbers `seq`.
pub open spec fn meta_descriptor(m: EpisodeMeta, seq: u32) -> DescriptorView {
    DescriptorView {
        seq,
        reference: RefView::Name(m.name@),
        title: m.title.deep_view(),
        available_at: m.freed_at,
    }
}

/// The descriptors of the content episodes of a newest-first list: oldest
/// first, numbered from 1 in that order.
pub open spec fn content_descriptors(s: Seq<EpisodeMeta>) -> Seq<DescriptorView> {
    let c = content_oldest_first(s);
    Seq::new(c.len(), |i: int| meta_descriptor(c[i], (i + 1) as u32))
}

proof fn lemma_content_len(s: Seq<EpisodeMeta>)
    ensures
        content_oldest_first(s).len() <= s.len(),
    decreases s.len(),
{
    if s.len() > 0 {
        lemma_content_len(s.drop_first());
    }
}

/// The content episodes of a list are numbered without repeats.
pub proof fn lemma_content_numbers_distinct(s: Seq<EpisodeMeta>)
    requires
        s.len() <= u32::MAX,
    ensures
        numbers_distinct(content_descriptors(s)),
{
    lemma_content_len(s);
}

fn is_content_exec(m: &EpisodeMeta) -> (r: bool)
    ensures
        r == is_content(*m),
{
    match &m.kind {
        Some(k) => !same_text(k.as_str(), "n"),
        None => false,
    }
}

/// The content episodes of a newest-first episode list, oldest first and
/// numbered from 1 in that order. Notices and entries without a display type
/// are left out and take no number.
pub fn content_episodes(episodes: &Vec<EpisodeMeta>) -> (r: Vec<EpisodeDescriptor>)
    requires
        episodes@.len() <= u32::MAX,
    ensures
        descriptor_views(r@) == content_descriptors(episodes@),
{
    let mut r: Vec<EpisodeDescriptor> = Vec::new();
    let n = episodes.len();
    let mut i: usize = n;
    assert(episodes@.subrange(n as int, n as int) =~= Seq::<EpisodeMeta>::empty());
    while i > 0
        invariant
            i <= n == episodes@.len() <= u32::MAX,
            descriptor_views(r@) == content_descriptors(episodes@.subrange(i as int, n as int)),
        decreases i,
    {
        let ghost tail = episodes@.subrange(i as int, n as int);
        let ghost longer = episodes@.subrange(i - 1, n as int);
        assert(longer.drop_first() =~= tail);
        assert(longer[0] == episodes@[i - 1]);
        proof {
            lemma_content_len(tail);
        }
        assert(r@.len() == descriptor_views(r@).len());
        assert(r@.len() <= tail.len());
        let m = &episodes[i - 1];
        if is_content_exec(m) {
            assert(content_oldest_first(longer) == content_oldest_first(tail).push(*m));
            let d = EpisodeDescriptor {
                seq: (r.len() + 1) as u32,
                reference: EpisodeRef::Name(m.name.clone()),
                title: copy_text(&m.title),
                available_at: m.freed_at,
            };
            assert(d@ == meta_descriptor(*m, (r@.len() + 1) as u32));
            let ghost before = r@;
            r.push(d);
            assert(r@ == before.push(d));
            let ghost c = content_oldest_first(tail);
            assert forall|k: int| 0 <= k < before.len() implies descriptor_views(r@)[k]
                == content_descriptors(longer)[k] by {
                assert(c.push(*m)[k] == c[k]);
                assert(descriptor_views(before)[k] == content_descriptors(tail)[k]);
            }
            assert(descriptor_views(r@) =~= content_descriptors(longer));
        } else {
            assert(content_oldest_first(longer) == content_oldest_first(tail));
            assert(descriptor_views(r@) =~= content_descriptors(longer));
        }
        i = i - 1;
    }
    assert(episodes@.subrange(0, n as int) =~= episodes@);
    r
}

/// The listing a product object gives: its display title and its content
/// episodes, oldest first. Fails when the object has no title.
pub fn product_listing(product: &Product) -> (r: Result<Listing, Error>)
    requires
        product.episodes@.len() <= u32::MAX,
    ensures
        match product.title {
            Some(t) => r matches Ok(l) && l.title@ == t@ && descriptor_views(l.episodes@)
                == content_descriptors(product.episodes@),
            None => r == Err::<Listing, Error>(Error::ExtractionFailure),
        },
{
    match &product.title {
        Some(t) => Ok(Listing { title: t.clone(), episodes: content_episodes(&product.episodes) }),
        None => Err(Error::ExtractionFailure),
    }
}

/// The product object's JSON text on a comic page. Fails when no inline
/// script of the page holds it.
pub fn page_product_json(html: &str) -> (r: Result<Vec<u8>, Error>)
    ensures
        match first_product_frame(inline_scripts_of(html@)) {
            Some(f) => r matches Ok(j) && j@ == f,
            None => r == Err::<Vec<u8>, Error>(Error::ExtractionFailure),
        },
{
    let scripts = inline_scripts(html);
    product_json(&scripts)
}

/// The anti-forgery token among the values of a login form's token fields:
/// the value of the first field. Fails when there is no field, or the first
/// has no value.
pub fn first_token(values: &Vec<Option<String>>) -> (r: Result<String, Error>)
    ensures
        match (if values@.len() > 0 { values@[0].deep_view() } else { None }) {
            Some(t) => r matches Ok(s) && s@ == t,
            None => r == Err::<String, Error>(Error::AuthenticationFailure),
        },
{
    if values.len() == 0 {
        return Err(Error::AuthenticationFailure);
    }
    match &values[0] {
        Some(t) => Ok(t.clone()),
        None => Err(Error::AuthenticationFailure),
    }
}

/// The anti-forgery token of the login page.
pub fn authenticity_token(html: &str) -> (r: Result<String, Error>)
    ensures
        match (if token_values_of(html@).len() > 0 { token_values_of(html@)[0] } else { None }) {
            Some(t) => r matches Ok(s) && s@ == t,
            None => r == Err::<String, Error>(Error::AuthenticationFailure),
        },
{
    let values = token_values(html);
    first_token(&values)
}

/// The pairs encoded as an `application/x-www-form-urlencoded` body.
pub uninterp spec fn form_encoded(pairs: Seq<(Seq<char>, Seq<char>)>) -> Seq<char>;

/// Relies on url's `form_urlencoded::Serializer`: `extend_pairs` then
/// `finish` encode the pairs in order.
#[verifier::external_body]
fn encode_form(pairs: &Vec<(String, String)>) -> (r: String)
    ensures
        r@ == form_encoded(pairs.deep_view()),
{
    url::form_urlencoded::Serializer::new(String::new()).extend_pairs(pairs.iter()).finish()
}

/// The fields of the login form, in order.
pub open spec fn login_fields(token: Seq<char>, username: Seq<char>, password: Seq<char>) -> Seq<
    (Seq<char>, Seq<char>),
> {
    seq![
        ("utf8"@, "\u{2713}"@),
        ("authenticity_token"@, token),
        ("redirect"@, "/ko"@),
        ("username"@, username),
        ("password"@, password),
        ("remember_me"@, "false"@),
    ]
}

fn field(name: &str, value: &str) -> (r: (String, String))
    ensures
        r.deep_view() == (name@, value@),
{
    (name.to_owned(), value.to_owned())
}

/// The body that posts the credentials and the anti-forgery token to the
/// login endpoint.
pub fn login_form(token: &str, username: &str, password: &str) -> (r: String)
    ensures
        r@ == form_encoded(login_fields(token@, username@, password@)),
{
    let pairs = vec![
        field("utf8", "\u{2713}"),
        field("authenticity_token", token),
        field("redirect", "/ko"),
        field("username", username),
        field("password", password),
        field("remember_me", "false"),
    ];
    assert(pairs.deep_view() =~= login_fields(token@, username@, password@));
    encode_form(&pairs)
}

/// Where a successful login redirects to: the site's home page.
pub open spec fn login_target() -> Seq<char> {
    "https://www.lezhin.com/ko"@
}

/// Whether the answer to the login post says the login went through: a
/// redirection (the client follows none) whose `Location` is the home page.
/// Any other status, or a redirection elsewhere (back to the form), fails the
/// login.
pub fn login_accepted(status: u16, location: &Option<String>) -> (r: bool)
    ensures
        r == (300 <= status < 400 && location.deep_view() == Some(login_target())),
{
    if status < 300 || status >= 400 {
        return false;
    }
    match location {
        Some(l) => same_text(l.as_str(), "https://www.lezhin.com/ko"),
        None => false,
    }
}

/// The base of the image addresses that the viewer API hands out.
pub open spec fn cdn_base() -> Seq<char> {
    "https://cdn.lezhin.com/v2"@
}

/// What the viewer API answers for an episode.
#[derive(Debug, Clone)]
pub struct ViewerAnswer {
    /// The answer's status code; zero on success.
    pub code: Option<u64>,
    /// The path of each image, in delivery order.
    pub paths: Option<Vec<Option<String>>>,
}

/// The image addresses that an answer's code and paths give: the CDN base
/// followed by each path, when the code is zero and every entry has a path.
pub open spec fn answer_urls(code: Option<u64>, paths: Option<Seq<Option<Seq<char>>>>) -> Option<
    Seq<Seq<char>>,
> {
    match paths {
        Some(ps) => if code == Some(0u64) && forall|i: int| 0 <= i < ps.len() ==> (#[trigger] ps[i]) is Some {
            Some(Seq::new(ps.len(), |i: int| cdn_base() + ps[i]->0))
        } else {
            None
        },
        None => None,
    }
}

/// The addresses of an episode's images, in delivery order. Fails when the
/// code is absent or not zero, or a path is missing.
pub fn image_urls(answer: &ViewerAnswer) -> (r: Result<Vec<String>, Error>)
    ensures
        match answer_urls(answer.code, answer.paths.deep_view()) {
            Some(u) => r matches Ok(urls) && urls.deep_view() == u,
            None => r == Err::<Vec<String>, Error>(Error::ExtractionFailure),
        },
{
    let paths = match &answer.paths {
        Some(ps) => ps,
        None => {
            return Err(Error::ExtractionFailure);
        },
    };
    let ghost pv = paths.deep_view();
    match answer.code {
        Some(c) => {
            if c != 0 {
                return Err(Error::ExtractionFailure);
            }
        },
        None => {
            return Err(Error::ExtractionFailure);
        },
    }
    let mut urls: Vec<String> = Vec::new();
    let mut i: usize = 0;
    while i < paths.len()
        invariant
            i <= paths@.len(),
            pv == paths.deep_view(),
            pv.len() == paths@.len(),
            answer.paths.deep_view() == Some(pv),
            answer.code == Some(0u64),
            urls@.len() == i,
            forall|k: int| 0 <= k < i ==> (#[trigger] pv[k]) is Some,
            forall|k: int| 0 <= k < i ==> (#[trigger] urls@[k])@ == cdn_base() + pv[k]->0,
        decreases paths@.len() - i,
    {
        assert(pv[i as int] == paths@[i as int].deep_view());
        match &paths[i] {
            Some(p) => {
                let base = String::from_str("https://cdn.lezhin.com/v2");
                urls.push(base.concat(p.as_str()));
            },
            None => {
                assert(pv[i as int] is None);
                return Err(Error::ExtractionFailure);
            },
        }
        i = i + 1;
    }
    assert(urls.deep_view() =~= Seq::new(pv.len(), |k: int| cdn_base() + pv[k]->0));
    Ok(urls)
}

/// What the viewer API's JSON answer holds, when the text is JSON: its
/// `code` member as an unsigned integer, and, when `data.extra.episode.scrollsInfo`
/// is an array, the `path` member of each entry as a string.
pub uninterp spec fn viewer_answer_of(json: Seq<u8>) -> Option<(Option<u64>, Option<Seq<Option<Seq<char>>>>)>;

/// Relies on serde_json's `from_slice` into a `Value`, its indexing (which
/// gives `Null` for a missing member) and `as_u64`, `as_array`, `as_str`.
#[verifier::external_body]
fn parse_viewer_answer(json: &[u8]) -> (r: Option<ViewerAnswer>)
    ensures
        match r {
            Some(a) => viewer_answer_of(json@) == Some((a.code, a.paths.deep_view())),
            None => viewer_answer_of(json@) is None,
        },
{
    let v: serde_json::Value = serde_json::from_slice(json).ok()?;
    let items = v["data"]["extra"]["episode"]["scrollsInfo"].as_array();
    let paths = items.map(|a| a.iter().map(|e| e["path"].as_str().map(String::from)).collect());
    Some(ViewerAnswer { code: v["code"].as_u64(), paths })
}

/// The addresses of an episode's images from the viewer API's answer, in
/// delivery order. Fails when the answer is not JSON, its code is absent or
/// not zero, or a path is missing.
pub fn episode_image_urls(json: &[u8]) -> (r: Result<Vec<String>, Error>)
    ensures
        match viewer_answer_of(json@) {
            Some((code, paths)) => match answer_urls(code, paths) {
                Some(u) => r matches Ok(urls) && urls.deep_view() == u,
                None => r == Err::<Vec<String>, Error>(Error::ExtractionFailure),
            },
            None => r == Err::<Vec<String>, Error>(Error::ExtractionFailure),
        },
{
    match parse_viewer_answer(json) {
        Some(a) => image_urls(&a),
        None => Err(Error::ExtractionFailure),
    }
}

} // verus!
