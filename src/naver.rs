//! Reading Naver's pages: the paginated episode list, from which the range of
//! episode numbers is found, and the page of one episode.
use vstd::prelude::*;

use crate::crawl::numbers_distinct;
use crate::error::Error;
use crate::html::{
    episode_heading, episode_heading_of, list_items, list_items_of, og_titles, og_titles_of,
    viewer_images, viewer_images_of,
};
use crate::model::{descriptor_views, DescriptorView, EpisodeDescriptor, EpisodeRef, Listing, RefView};
use crate::text::{parse_u32, parsed_u32, same_text};

verus! {

/// The order in which an episode list page is asked for.
#[derive(Debug, Clone, Copy, PartialEq, Eq, Structural)]
pub enum SortOrder {
    Ascending,
    Descending,
}

impl SortOrder {
    /// The value of the page's `sortOrder` parameter.
    pub fn to_str(&self) -> (r: &'static str)
        ensures
            r@ == (match *self {
                SortOrder::Ascending => "ASC"@,
                SortOrder::Descending => "DESC"@,
            }),
    {
        match self {
            SortOrder::Ascending => "ASC",
            SortOrder::Descending => "DESC",
        }
    }
}

/// The base that an episode link of the list page is relative to.
pub open spec fn mobile_base() -> Seq<char> {
    "https://m.comic.naver.com"@
}

/// One episode of a list page.
#[derive(Debug, Clone)]
pub struct ListEntry {
    pub number: u32,
    pub title: String,
    pub link: String,
}

/// A list item as the page query gives it: its number attribute, its title
/// text, its link.
pub type RawItem = (Option<String>, Option<String>, Option<String>);

/// A list item is readable when it has a number that parses, a title and a
/// link.
pub open spec fn item_readable(it: (Option<Seq<char>>, Option<Seq<char>>, Option<Seq<char>>)) -> bool {
    &&& it.0 is Some
    &&& parsed_u32(it.0->0) is Some
    &&& it.1 is Some
    &&& it.2 is Some
}

/// The entry a readable item stands for, when its link is not the
/// placeholder `#` of an episode that cannot be opened.
pub open spec fn item_entry(it: (Option<Seq<char>>, Option<Seq<char>>, Option<Seq<char>>)) -> Option<
    (u32, Seq<char>, Seq<char>),
> {
    if it.2->0 == "#"@ {
        None
    } else {
        Some((parsed_u32(it.0->0)->0, it.1->0, mobile_base() + it.2->0))
    }
}

/// The entries of readable items, in order.
pub open spec fn item_entries(items: Seq<(Option<Seq<char>>, Option<Seq<char>>, Option<Seq<char>>)>) -> Seq<
    (u32, Seq<char>, Seq<char>),
>
    decreases items.len(),
{
    if items.len() == 0 {
        Seq::empty()
    } else {
        match item_entry(items.last()) {
            Some(e) => item_entries(items.drop_last()).push(e),
            None => item_entries(items.drop_last()),
        }
    }
}

/// An entry as plain values.
pub open spec fn entry_view(e: ListEntry) -> (u32, Seq<char>, Seq<char>) {
    (e.number, e.title@, e.link@)
}

pub open spec fn entry_views(s: Seq<ListEntry>) -> Seq<(u32, Seq<char>, Seq<char>)> {
    s.map_values(|e: ListEntry| entry_view(e))
}

/// The entries of a list page's items: every item must be readable; those
/// whose link is the placeholder `#` are left out. Fails when an item is not
/// readable.
pub fn list_entries(items: &Vec<RawItem>) -> (r: Result<Vec<ListEntry>, Error>)
    ensures
        (forall|i: int| 0 <= i < items@.len() ==> item_readable(#[trigger] items.deep_view()[i]))
            ==> (r matches Ok(es) && entry_views(es@) == item_entries(items.deep_view())),
        !(forall|i: int| 0 <= i < items@.len() ==> item_readable(#[trigger] items.deep_view()[i]))
            ==> r == Err::<Vec<ListEntry>, Error>(Error::ExtractionFailure),
{
    let ghost iv = items.deep_view();
    let mut es: Vec<ListEntry> = Vec::new();
    let mut i: usize = 0;
    while i < items.len()
        invariant
            i <= items@.len(),
            iv == items.deep_view(),
            iv.len() == items@.len(),
            forall|k: int| 0 <= k < i ==> item_readable(#[trigger] iv[k]),
            entry_views(es@) == item_entries(iv.subrange(0, i as int)),
        decreases items@.len() - i,
    {
        let ghost pre = iv.subrange(0, i as int);
        let ghost next = iv.subrange(0, i + 1);
        assert(next.drop_last() =~= pre);
        assert(next.last() == iv[i as int]);
        assert(iv[i as int] == items@[i as int].deep_view());
        let item = &items[i];
        let number = match &item.0 {
            Some(n) => parse_u32(n.as_str()),
            None => None,
        };
        match (number, &item.1, &item.2) {
            (Some(k), Some(title), Some(href)) => {
                if !same_text(href.as_str(), "#") {
                    let link = String::from_str("https://m.comic.naver.com").concat(href.as_str());
                    let e = ListEntry { number: k, title: title.clone(), link };
                    let ghost before = es@;
                    es.push(e);
                    assert(es@ == before.push(e));
                    assert(entry_views(es@) =~= entry_views(before).push(entry_view(e)));
                } else {
                }
            },
            _ => {
                assert(!item_readable(iv[i as int]));
                return Err(Error::ExtractionFailure);
            },
        }
        i = i + 1;
    }
    assert(iv.subrange(0, i as int) =~= iv);
    Ok(es)
}

/// One page of the episode list: the comic's title and the page's entries.
#[derive(Debug, Clone)]
pub struct ListPage {
    pub title: String,
    pub entries: Vec<ListEntry>,
}

/// The comic title that the page's metadata gives: the content of its first
/// `og:title` element.
pub open spec fn page_title(titles: Seq<Option<Seq<char>>>) -> Option<Seq<char>> {
    if titles.len() > 0 {
        titles[0]
    } else {
        None
    }
}

/// Reads a page of the episode list. Fails when an item is not readable or
/// the page gives no title.
pub fn list_page(html: &str) -> (r: Result<ListPage, Error>)
    ensures
        ((forall|i: int|
            0 <= i < list_items_of(html@).len() ==> item_readable(#[trigger] list_items_of(html@)[i]))
            && page_title(og_titles_of(html@)) is Some) ==> (r matches Ok(p) && p.title@ == page_title(
            og_titles_of(html@),
        )->0 && entry_views(p.entries@) == item_entries(list_items_of(html@))),
        !((forall|i: int|
            0 <= i < list_items_of(html@).len() ==> item_readable(#[trigger] list_items_of(html@)[i]))
            && page_title(og_titles_of(html@)) is Some) ==> r == Err::<ListPage, Error>(
            Error::ExtractionFailure,
        ),
{
    let items = list_items(html);
    let entries = match list_entries(&items) {
        Ok(es) => es,
        Err(e) => {
            return Err(e);
        },
    };
    let titles = og_titles(html);
    if titles.len() == 0 {
        return Err(Error::ExtractionFailure);
    }
    assert(titles@[0].deep_view() == titles.deep_view()[0]);
    match &titles[0] {
        Some(t) => Ok(ListPage { title: t.clone(), entries }),
        None => Err(Error::ExtractionFailure),
    }
}

/// The closed range of episode numbers from `lo` to `hi`, ascending.
pub open spec fn number_range(lo: u32, hi: u32) -> Seq<u32> {
    if lo <= hi {
        Seq::new((hi - lo + 1) as nat, |i: int| (lo + i) as u32)
    } else {
        Seq::empty()
    }
}

/// Every episode number from `lo` to `hi`, ascending: the numbers to scan,
/// on the assumption that a comic numbers its episodes without gaps.
pub fn scan_range(lo: u32, hi: u32) -> (r: Vec<u32>)
    ensures
        r@ == number_range(lo, hi),
{
    let mut r: Vec<u32> = Vec::new();
    if lo > hi {
        assert(r@ =~= number_range(lo, hi));
        return r;
    }
    let mut k: u32 = lo;
    loop
        invariant
            lo <= k <= hi,
            r@ =~= Seq::new((k - lo) as nat, |i: int| (lo + i) as u32),
        decreases hi - k,
    {
        r.push(k);
        if k == hi {
            assert(r@ =~= number_range(lo, hi));
            return r;
        }
        k = k + 1;
    }
}

/// The descriptor of the episode numbered `k`: numbered `k` in the store too.
pub open spec fn numbered_descriptor(k: u32) -> DescriptorView {
    DescriptorView { seq: k, reference: RefView::Number(k), title: None, available_at: None }
}

/// The listing that two list pages give, the first sorted ascending and the
/// second descending: the first page's title, and every episode from the
/// lowest number of the first to the highest of the second.
pub open spec fn range_listing(asc: Seq<(u32, Seq<char>, Seq<char>)>, desc: Seq<(u32, Seq<char>, Seq<char>)>) -> Seq<
    DescriptorView,
> {
    number_range(asc[0].0, desc[0].0).map_values(|k: u32| numbered_descriptor(k))
}

/// The episodes of a range listing are numbered without repeats.
pub proof fn lemma_range_numbers_distinct(
    asc: Seq<(u32, Seq<char>, Seq<char>)>,
    desc: Seq<(u32, Seq<char>, Seq<char>)>,
)
    requires
        asc.len() > 0,
        desc.len() > 0,
    ensures
        numbers_distinct(range_listing(asc, desc)),
{
}

/// The listing of a comic from the first page of its episode list sorted
/// ascending and the first sorted descending. Fails when either page lists no
/// episode.
pub fn range_listing_of(ascending: &ListPage, descending: &ListPage) -> (r: Result<Listing, Error>)
    ensures
        (ascending.entries@.len() > 0 && descending.entries@.len() > 0) ==> (r matches Ok(l)
            && l.title@ == ascending.title@ && descriptor_views(l.episodes@) == range_listing(
            entry_views(ascending.entries@),
            entry_views(descending.entries@),
        )),
        !(ascending.entries@.len() > 0 && descending.entries@.len() > 0) ==> r == Err::<
            Listing,
            Error,
        >(Error::ExtractionFailure),
{
    if ascending.entries.len() == 0 || descending.entries.len() == 0 {
        return Err(Error::ExtractionFailure);
    }
    let lo = ascending.entries[0].number;
    let hi = descending.entries[0].number;
    let numbers = scan_range(lo, hi);
    let mut episodes: Vec<EpisodeDescriptor> = Vec::new();
    let mut i: usize = 0;
    while i < numbers.len()
        invariant
            i <= numbers@.len(),
            numbers@ == number_range(lo, hi),
            descriptor_views(episodes@) =~= numbers@.subrange(0, i as int).map_values(
                |k: u32| numbered_descriptor(k),
            ),
        decreases numbers@.len() - i,
    {
        let k = numbers[i];
        let d = EpisodeDescriptor { seq: k, reference: EpisodeRef::Number(k), title: None, available_at: None };
        let ghost before = episodes@;
        episodes.push(d);
        assert(episodes@ == before.push(d));
        assert(numbers@.subrange(0, i + 1) =~= numbers@.subrange(0, i as int).push(k));
        assert(descriptor_views(episodes@) =~= descriptor_views(before).push(numbered_descriptor(k)));
        i = i + 1;
    }
    assert(numbers@.subrange(0, i as int) =~= numbers@);
    Ok(Listing { title: ascending.title.clone(), episodes })
}

/// The page of one episode: its title and the addresses of its images in
/// delivery order.
#[derive(Debug, Clone)]
pub struct EpisodePage {
    pub title: String,
    pub image_links: Vec<String>,
}

/// Whether the viewer's images all have an address.
pub open spec fn images_linked(imgs: Seq<Option<Seq<char>>>) -> bool {
    forall|i: int| 0 <= i < imgs.len() ==> (#[trigger] imgs[i]) is Some
}

/// Reads the page of one episode. Fails when the page has no viewer, an
/// image of the viewer has no address, or the page has no title heading.
pub fn episode_page(html: &str) -> (r: Result<EpisodePage, Error>)
    ensures
        (viewer_images_of(html@) matches Some(imgs) && images_linked(imgs)
            && episode_heading_of(html@) matches Some(Some(t))) ==> (r matches Ok(p)
            && p.title@ == episode_heading_of(html@)->0->0 && p.image_links@.len()
            == viewer_images_of(html@)->0.len() && forall|i: int|
            0 <= i < p.image_links@.len() ==> (#[trigger] p.image_links@[i])@ == viewer_images_of(
                html@,
            )->0[i]->0),
        !(viewer_images_of(html@) matches Some(imgs) && images_linked(imgs)
            && episode_heading_of(html@) matches Some(Some(t))) ==> r == Err::<EpisodePage, Error>(
            Error::ExtractionFailure,
        ),
{
    let imgs = match viewer_images(html) {
        Some(v) => v,
        None => {
            return Err(Error::ExtractionFailure);
        },
    };
    let ghost iv = imgs.deep_view();
    let mut links: Vec<String> = Vec::new();
    let mut i: usize = 0;
    while i < imgs.len()
        invariant
            i <= imgs@.len(),
            iv == imgs.deep_view(),
            viewer_images_of(html@) == Some(iv),
            iv.len() == imgs@.len(),
            links@.len() == i,
            forall|k: int| 0 <= k < i ==> (#[trigger] iv[k]) is Some,
            forall|k: int| 0 <= k < i ==> (#[trigger] links@[k])@ == iv[k]->0,
        decreases imgs@.len() - i,
    {
        assert(iv[i as int] == imgs@[i as int].deep_view());
        match &imgs[i] {
            Some(src) => {
                links.push(src.clone());
            },
            None => {
                assert(iv[i as int] is None);
                assert(!images_linked(iv));
                return Err(Error::ExtractionFailure);
            },
        }
        i = i + 1;
    }
    match episode_heading(html) {
        Some(Some(t)) => Ok(EpisodePage { title: t, image_links: links }),
        _ => Err(Error::ExtractionFailure),
    }
}

} // verus!
