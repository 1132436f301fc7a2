//! The records a crawl reads and writes.
use vstd::prelude::*;

use crate::text::same_text;

verus! {

/// A publisher whose site the crawl knows how to read.
#[derive(Debug, Clone, Copy, PartialEq, Eq, Structural, PartialOrd, Ord, Hash)]
pub enum Provider {
    Lezhin,
    Naver,
}

pub open spec fn provider_name(p: Provider) -> Seq<char> {
    match p {
        Provider::Lezhin => "lezhin"@,
        Provider::Naver => "naver"@,
    }
}

impl Provider {
    /// The name under which the store keeps the provider.
    pub fn name(&self) -> (r: &'static str)
        ensures
            r@ == provider_name(*self),
    {
        match self {
            Provider::Lezhin => "lezhin",
            Provider::Naver => "naver",
        }
    }

    /// The provider stored under `s`, if any.
    pub fn from_name(s: &str) -> (r: Option<Provider>)
        ensures
            r == (if s@ == provider_name(Provider::Lezhin) {
                Some(Provider::Lezhin)
            } else if s@ == provider_name(Provider::Naver) {
                Some(Provider::Naver)
            } else {
                None
            }),
    {
        if same_text(s, "lezhin") {
            Some(Provider::Lezhin)
        } else if same_text(s, "naver") {
            Some(Provider::Naver)
        } else {
            None
        }
    }

    /// Whether the provider's pages can only be read after a login.
    pub fn needs_login(&self) -> (r: bool)
        ensures
            r == (*self == Provider::Lezhin),
    {
        match self {
            Provider::Lezhin => true,
            Provider::Naver => false,
        }
    }
}

/// Whether a registered target is to be crawled.
#[derive(Debug, Clone, Copy, PartialEq, Eq, Structural)]
pub enum TargetStatus {
    /// Crawled on every run; episodes already stored are not fetched again.
    Enabled,
    /// Left alone for now.
    Disabled,
    /// Fully crawled; nothing more to fetch.
    Complete,
}

/// The code under which the store keeps a status.
pub open spec fn status_code(s: TargetStatus) -> i32 {
    match s {
        TargetStatus::Enabled => 0,
        TargetStatus::Disabled => 1,
        TargetStatus::Complete => 2,
    }
}

impl TargetStatus {
    /// The code under which the store keeps the status.
    pub fn code(&self) -> (r: i32)
        ensures
            r == status_code(*self),
    {
        match self {
            TargetStatus::Enabled => 0,
            TargetStatus::Disabled => 1,
            TargetStatus::Complete => 2,
        }
    }

    /// The status stored under `c`, if any.
    pub fn from_code(c: i32) -> (r: Option<TargetStatus>)
        ensures
            match r {
                Some(s) => status_code(s) == c,
                None => c < 0 || c > 2,
            },
    {
        if c == 0 {
            Some(TargetStatus::Enabled)
        } else if c == 1 {
            Some(TargetStatus::Disabled)
        } else if c == 2 {
            Some(TargetStatus::Complete)
        } else {
            None
        }
    }
}

/// A comic registered for periodic crawling.
#[derive(Debug, Clone)]
pub struct Target {
    pub provider: Provider,
    pub external_id: String,
    pub status: TargetStatus,
    /// When the target was last attempted, in milliseconds since the epoch.
    pub last_attempt: Option<i64>,
}

/// How the publisher names an episode when its images are asked for.
#[derive(Debug, Clone)]
pub enum EpisodeRef {
    /// The site's own episode name.
    Name(String),
    /// The site's own episode number.
    Number(u32),
}

/// One episode as a listing reports it, with the sequence number the crawl
/// gives it in the store.
#[derive(Debug, Clone)]
pub struct EpisodeDescriptor {
    pub seq: u32,
    pub reference: EpisodeRef,
    pub title: Option<String>,
    /// When the episode may be fetched, in milliseconds since the epoch; none
    /// when it is free already.
    pub available_at: Option<i64>,
}

/// An episode reference as plain values.
pub enum RefView {
    Name(Seq<char>),
    Number(u32),
}

/// An episode descriptor as plain values.
pub struct DescriptorView {
    pub seq: u32,
    pub reference: RefView,
    pub title: Option<Seq<char>>,
    pub available_at: Option<i64>,
}

impl View for EpisodeDescriptor {
    type V = DescriptorView;

    open spec fn view(&self) -> DescriptorView {
        DescriptorView {
            seq: self.seq,
            reference: match self.reference {
                EpisodeRef::Name(n) => RefView::Name(n@),
                EpisodeRef::Number(k) => RefView::Number(k),
            },
            title: self.title.deep_view(),
            available_at: self.available_at,
        }
    }
}

/// What a listing of a comic yields: its display title, and its content
/// episodes in ascending order of the sequence numbers given to them.
#[derive(Debug, Clone)]
pub struct Listing {
    pub title: String,
    pub episodes: Vec<EpisodeDescriptor>,
}

/// The views of a sequence of descriptors.
pub open spec fn descriptor_views(s: Seq<EpisodeDescriptor>) -> Seq<DescriptorView> {
    s.map_values(|d: EpisodeDescriptor| d@)
}

/// A copy of an optional text.
pub fn copy_text(o: &Option<String>) -> (r: Option<String>)
    ensures
        r.deep_view() == o.deep_view(),
{
    match o {
        Some(t) => Some(t.clone()),
        None => None,
    }
}

/// A copy of an episode descriptor.
pub fn copy_descriptor(d: &EpisodeDescriptor) -> (r: EpisodeDescriptor)
    ensures
        r@ == d@,
{
    EpisodeDescriptor {
        seq: d.seq,
        reference: match &d.reference {
            EpisodeRef::Name(n) => EpisodeRef::Name(n.clone()),
            EpisodeRef::Number(k) => EpisodeRef::Number(*k),
        },
        title: copy_text(&d.title),
        available_at: d.available_at,
    }
}

} // verus!
