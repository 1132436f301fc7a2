//! The decisions of a crawl over one target: which episodes to fetch, which
//! rows to write, and when the attempt is recorded.
//!
//! A `TargetCrawl` is driven from outside: it hands out a `Step` (a question
//! for the store, a fetch, a write), and the caller performs it and hands back
//! the `Event` that came of it.
use vstd::prelude::*;

use crate::error::Error;
use crate::model::{
    copy_descriptor, copy_text, descriptor_views, DescriptorView, EpisodeDescriptor, Listing,
    Provider,
};

verus! {

/// What the crawl does with one listed episode.
#[derive(Debug, Clone, Copy, PartialEq, Eq, Structural)]
pub enum Verdict {
    /// The store holds the episode already: it is never fetched again.
    SkipExisting,
    /// The episode is not free yet: left for a later run.
    SkipUnavailable,
    /// The episode is fetched and written.
    Fetch,
}

/// The episode cannot be fetched before a time later than `now`.
pub open spec fn is_embargoed(d: DescriptorView, now: i64) -> bool {
    d.available_at matches Some(t) && t > now
}

/// What the crawl does with episode `d` at time `now`, given whether the store
/// holds it.
pub open spec fn verdict(d: DescriptorView, exists: bool, now: i64) -> Verdict {
    if exists {
        Verdict::SkipExisting
    } else if is_embargoed(d, now) {
        Verdict::SkipUnavailable
    } else {
        Verdict::Fetch
    }
}

/// Decides what to do with one listed episode.
pub fn decide(d: &EpisodeDescriptor, exists: bool, now: i64) -> (r: Verdict)
    ensures
        r == verdict(d@, exists, now),
{
    if exists {
        Verdict::SkipExisting
    } else {
        match d.available_at {
            Some(t) => if t > now {
                Verdict::SkipUnavailable
            } else {
                Verdict::Fetch
            },
            None => Verdict::Fetch,
        }
    }
}

/// An episode as fetched: the title its page gives, if any, and its images
/// in delivery order.
#[derive(Debug, Clone)]
pub struct FetchedEpisode {
    pub title: Option<String>,
    pub images: Vec<Vec<u8>>,
}

/// A fetched episode can be written when it has at least one image, and no
/// more than an image number can count.
pub open spec fn is_writable(f: FetchedEpisode) -> bool {
    0 < f.images@.len() <= u32::MAX
}

/// The row of a stored episode.
#[derive(Debug, Clone)]
pub struct EpisodeRecord {
    pub provider: Provider,
    pub comic_id: String,
    pub seq: u32,
    pub title: Option<String>,
    pub image_count: u32,
    /// When the row was made, in milliseconds since the epoch.
    pub created_at: i64,
}

/// The row of one stored image.
#[derive(Debug, Clone)]
pub struct AssetRecord {
    pub provider: Provider,
    pub comic_id: String,
    pub episode_seq: u32,
    /// The image's place in delivery order, from 1.
    pub image_seq: u32,
    pub bytes: Vec<u8>,
    /// When the row was made, in milliseconds since the epoch.
    pub updated_at: i64,
}

/// The title an episode is stored under: the one its page gave, else the
/// listing's.
pub open spec fn stored_title(d: DescriptorView, f: FetchedEpisode) -> Option<Seq<char>> {
    match f.title {
        Some(t) => Some(t@),
        None => d.title,
    }
}

/// `e` is the episode row for episode `d` of the comic, fetched as `f`, made
/// at time `at`.
pub open spec fn is_episode_row(
    e: EpisodeRecord,
    provider: Provider,
    comic_id: Seq<char>,
    d: DescriptorView,
    f: FetchedEpisode,
    at: i64,
) -> bool {
    &&& e.provider == provider
    &&& e.comic_id@ == comic_id
    &&& e.seq == d.seq
    &&& e.title.deep_view() == stored_title(d, f)
    &&& e.image_count == f.images@.len()
    &&& e.created_at == at
}

/// `a` are the image rows for episode `seq` of the comic, fetched as `f`,
/// made at time `at`: one per image, numbered from 1 in delivery order.
pub open spec fn are_asset_rows(
    a: Seq<AssetRecord>,
    provider: Provider,
    comic_id: Seq<char>,
    seq: u32,
    f: FetchedEpisode,
    at: i64,
) -> bool {
    &&& a.len() == f.images@.len()
    &&& forall|i: int|
        0 <= i < a.len() ==> {
            &&& (#[trigger] a[i]).provider == provider
            &&& a[i].comic_id@ == comic_id
            &&& a[i].episode_seq == seq
            &&& a[i].image_seq == i + 1
            &&& a[i].bytes@ == f.images@[i]@
            &&& a[i].updated_at == at
        }
}

/// The rows that store a fetched episode: its episode row, and one image row
/// per image, numbered from 1 in delivery order.
pub fn episode_rows(
    provider: Provider,
    comic_id: &String,
    d: &EpisodeDescriptor,
    f: FetchedEpisode,
    at: i64,
) -> (r: (EpisodeRecord, Vec<AssetRecord>))
    requires
        is_writable(f),
    ensures
        is_episode_row(r.0, provider, comic_id@, d@, f, at),
        are_asset_rows(r.1@, provider, comic_id@, d.seq, f, at),
{
    let ghost f0 = f;
    let title = match &f.title {
        Some(t) => Some(t.clone()),
        None => copy_text(&d.title),
    };
    let count = f.images.len();
    let episode = EpisodeRecord {
        provider,
        comic_id: comic_id.clone(),
        seq: d.seq,
        title,
        image_count: count as u32,
        created_at: at,
    };
    let mut images = f.images;
    let mut assets: Vec<AssetRecord> = Vec::new();
    let mut i: usize = 0;
    while i < count
        invariant
            count == f0.images@.len() <= u32::MAX,
            i <= count,
            images@ == f0.images@.subrange(i as int, count as int),
            assets@.len() == i,
            forall|k: int|
                0 <= k < i ==> {
                    &&& (#[trigger] assets@[k]).provider == provider
                    &&& assets@[k].comic_id@ == comic_id@
                    &&& assets@[k].episode_seq == d.seq
                    &&& assets@[k].image_seq == k + 1
                    &&& assets@[k].bytes@ == f0.images@[k]@
                    &&& assets@[k].updated_at == at
                },
        decreases count - i,
    {
        let bytes = images.remove(0);
        assets.push(
            AssetRecord {
                provider,
                comic_id: comic_id.clone(),
                episode_seq: d.seq,
                image_seq: (i + 1) as u32,
                bytes,
                updated_at: at,
            },
        );
        i = i + 1;
        assert(images@ =~= f0.images@.subrange(i as int, count as int));
    }
    (episode, assets)
}

/// Where a target crawl stands.
#[derive(Debug, Clone, Copy, PartialEq, Eq, Structural)]
pub enum Phase {
    /// Waiting for the comic's title to be written.
    Titling,
    /// Waiting to learn whether the store holds the current episode.
    Checking,
    /// Waiting for the current episode's images.
    Fetching,
    /// Waiting for the current episode's rows to be written.
    Persisting,
    /// Every episode is dealt with; waiting for the attempt to be recorded.
    Recording,
    /// Nothing left to do.
    Done,
}

/// What became of one listed episode.
#[derive(Debug, Clone, Copy, PartialEq, Eq, Structural)]
pub enum Outcome {
    SkippedExisting,
    SkippedUnavailable,
    Persisted,
    FetchFailed(Error),
    PersistFailed(Error),
}

/// What the caller learnt by performing a step.
#[derive(Debug)]
pub enum Event {
    /// The result of writing the comic's title.
    TitleWritten(Result<(), Error>),
    /// Whether the store holds the episode asked about.
    Exists(bool),
    /// The result of fetching the episode.
    Fetched(Result<FetchedEpisode, Error>),
    /// The result of writing the episode's rows, all together or none.
    Persisted(Result<(), Error>),
    /// The attempt was recorded on the target.
    AttemptRecorded,
}

/// What the caller is to do next.
#[derive(Debug)]
pub enum Step {
    /// Bring the comic's stored title up to date with this one.
    UpsertTitle(String),
    /// Ask the store whether it holds the episode with this number.
    CheckExists(u32),
    /// Fetch the images of this episode.
    Fetch(EpisodeDescriptor),
    /// Write the episode row and its image rows as one unit.
    Persist(EpisodeRecord, Vec<AssetRecord>),
    /// Set the target's last attempt to this time.
    RecordAttempt(i64),
    /// The target is done.
    Finished,
}

/// One pass over the listed episodes of a target, in ascending order.
pub struct TargetCrawl {
    pub provider: Provider,
    pub comic_id: String,
    /// The listed episodes, in the order they are dealt with.
    pub episodes: Vec<EpisodeDescriptor>,
    /// The run's time, in milliseconds since the epoch.
    pub now: i64,
    /// The episode being dealt with.
    pub pos: usize,
    pub phase: Phase,
    /// What became of each episode before `pos`.
    pub outcomes: Vec<Outcome>,
    /// What the store answered about each episode asked about so far.
    pub answers: Ghost<Seq<bool>>,
}

/// Outcome `o` of episode `d` follows from the crawl's verdict on it, given
/// the store's answer `a` about it.
pub open spec fn outcome_follows(d: DescriptorView, a: bool, now: i64, o: Outcome) -> bool {
    match verdict(d, a, now) {
        Verdict::SkipExisting => o == Outcome::SkippedExisting,
        Verdict::SkipUnavailable => o == Outcome::SkippedUnavailable,
        Verdict::Fetch => o == Outcome::Persisted || o is FetchFailed || o is PersistFailed,
    }
}

/// The outcome of an episode that was not fetched.
pub open spec fn skip_outcome(v: Verdict) -> Outcome {
    if v == Verdict::SkipExisting {
        Outcome::SkippedExisting
    } else {
        Outcome::SkippedUnavailable
    }
}

impl TargetCrawl {
    pub open spec fn wf(&self) -> bool {
        &&& self.outcomes@.len() == self.pos <= self.episodes@.len()
        &&& (self.phase == Phase::Checking || self.phase == Phase::Fetching || self.phase
            == Phase::Persisting) ==> self.pos < self.episodes@.len()
        &&& (self.phase == Phase::Recording || self.phase == Phase::Done) ==> self.pos
            == self.episodes@.len()
        &&& self.phase == Phase::Titling ==> self.pos == 0
        &&& if self.phase == Phase::Fetching || self.phase == Phase::Persisting {
            &&& self.answers@.len() == self.pos + 1
            &&& verdict(self.current(), self.answers@[self.pos as int], self.now) == Verdict::Fetch
        } else {
            self.answers@.len() == self.pos
        }
        &&& forall|i: int|
            0 <= i < self.pos ==> outcome_follows(
                self.episodes@[i]@,
                self.answers@[i],
                self.now,
                #[trigger] self.outcomes@[i],
            )
    }

    /// The event the crawl waits for is of the kind of `e`.
    pub open spec fn awaits(&self, e: Event) -> bool {
        match self.phase {
            Phase::Titling => e is TitleWritten,
            Phase::Checking => e is Exists,
            Phase::Fetching => e is Fetched,
            Phase::Persisting => e is Persisted,
            Phase::Recording => e is AttemptRecorded,
            Phase::Done => false,
        }
    }

    /// The current episode, as plain values.
    pub open spec fn current(&self) -> DescriptorView {
        self.episodes@[self.pos as int]@
    }

    /// The crawl has moved on to its episode `pos`, and `step` is its first
    /// step there: the store is asked about that episode, or, when every
    /// episode is dealt with, the attempt is recorded.
    pub open spec fn moved_on(&self, step: Step) -> bool {
        if self.pos < self.episodes@.len() {
            &&& self.phase == Phase::Checking
            &&& step matches Step::CheckExists(k) && k == self.current().seq
        } else {
            &&& self.phase == Phase::Recording
            &&& step matches Step::RecordAttempt(t) && t == self.now
        }
    }

    /// Starts a crawl of the listed episodes at time `now`.
    pub fn new(provider: Provider, comic_id: String, episodes: Vec<EpisodeDescriptor>, now: i64) -> (r: (
        TargetCrawl,
        Step,
    ))
        ensures
            r.0.wf(),
            r.0.provider == provider,
            r.0.comic_id@ == comic_id@,
            r.0.episodes@ == episodes@,
            r.0.now == now,
            r.0.pos == 0,
            r.0.moved_on(r.1),
    {
        let mut c = TargetCrawl {
            provider,
            comic_id,
            episodes,
            now,
            pos: 0,
            phase: Phase::Checking,
            outcomes: Vec::new(),
            answers: Ghost(Seq::empty()),
        };
        let step = c.move_on();
        (c, step)
    }

    /// Starts the crawl of a target from the result of listing it. When the
    /// listing failed there is no crawl, so no episode is fetched and no
    /// attempt is recorded: the failure is handed back. Otherwise the first
    /// step writes the comic's title, before any episode is dealt with.
    pub fn from_listing(provider: Provider, comic_id: String, listing: Result<Listing, Error>, now: i64) -> (r:
        Result<(TargetCrawl, Step), Error>)
        ensures
            match listing {
                Err(e) => r matches Err(e2) && e2 == e,
                Ok(l) => r matches Ok((c, step)) && {
                    &&& c.wf()
                    &&& c.provider == provider
                    &&& c.comic_id@ == comic_id@
                    &&& c.episodes@ == l.episodes@
                    &&& c.now == now
                    &&& c.pos == 0
                    &&& c.phase == Phase::Titling
                    &&& step matches Step::UpsertTitle(t) && t@ == l.title@
                },
            },
    {
        match listing {
            Err(e) => Err(e),
            Ok(l) => {
                let c = TargetCrawl {
                    provider,
                    comic_id,
                    episodes: l.episodes,
                    now,
                    pos: 0,
                    phase: Phase::Titling,
                    outcomes: Vec::new(),
                    answers: Ghost(Seq::empty()),
                };
                Ok((c, Step::UpsertTitle(l.title)))
            },
        }
    }

    /// Whether `e` is the kind of event the crawl waits for.
    pub fn accepts(&self, e: &Event) -> (r: bool)
        ensures
            r == self.awaits(*e),
    {
        match (self.phase, e) {
            (Phase::Titling, Event::TitleWritten(_)) => true,
            (Phase::Checking, Event::Exists(_)) => true,
            (Phase::Fetching, Event::Fetched(_)) => true,
            (Phase::Persisting, Event::Persisted(_)) => true,
            (Phase::Recording, Event::AttemptRecorded) => true,
            _ => false,
        }
    }

    /// Sets the phase for the episode at `pos` and gives its first step.
    fn move_on(&mut self) -> (step: Step)
        requires
            old(self).outcomes@.len() == old(self).pos <= old(self).episodes@.len(),
            old(self).answers@.len() == old(self).pos,
            forall|i: int|
                0 <= i < old(self).pos ==> outcome_follows(
                    old(self).episodes@[i]@,
                    old(self).answers@[i],
                    old(self).now,
                    #[trigger] old(self).outcomes@[i],
                ),
        ensures
            final(self).wf(),
            final(self).moved_on(step),
            final(self).provider == old(self).provider,
            final(self).comic_id == old(self).comic_id,
            final(self).episodes == old(self).episodes,
            final(self).now == old(self).now,
            final(self).pos == old(self).pos,
            final(self).outcomes == old(self).outcomes,
            final(self).answers == old(self).answers,
    {
        if self.pos < self.episodes.len() {
            self.phase = Phase::Checking;
            Step::CheckExists(self.episodes[self.pos].seq)
        } else {
            self.phase = Phase::Recording;
            Step::RecordAttempt(self.now)
        }
    }

    /// Records what became of the current episode and moves on to the next.
    fn finish_episode(&mut self, o: Outcome) -> (step: Step)
        requires
            old(self).outcomes@.len() == old(self).pos < old(self).episodes@.len(),
            old(self).answers@.len() == old(self).pos + 1,
            outcome_follows(old(self).current(), old(self).answers@[old(self).pos as int], old(self).now, o),
            forall|i: int|
                0 <= i < old(self).pos ==> outcome_follows(
                    old(self).episodes@[i]@,
                    old(self).answers@[i],
                    old(self).now,
                    #[trigger] old(self).outcomes@[i],
                ),
        ensures
            final(self).wf(),
            final(self).moved_on(step),
            final(self).provider == old(self).provider,
            final(self).comic_id == old(self).comic_id,
            final(self).episodes == old(self).episodes,
            final(self).now == old(self).now,
            final(self).pos == old(self).pos + 1,
            final(self).outcomes@ == old(self).outcomes@.push(o),
            final(self).answers == old(self).answers,
    {
        let ghost before = self.outcomes@;
        self.outcomes.push(o);
        assert forall|i: int| 0 <= i < self.pos + 1 implies outcome_follows(
            self.episodes@[i]@,
            self.answers@[i],
            self.now,
            #[trigger] self.outcomes@[i],
        ) by {
            if i < self.pos {
                assert(self.outcomes@[i] == before[i]);
            }
        }
        assert(self.pos < self.episodes.len());
        self.pos = self.pos + 1;
        self.move_on()
    }

    /// Takes in what came of the last step, and gives the next.
    pub fn advance(&mut self, event: Event) -> (step: Step)
        requires
            old(self).wf(),
            old(self).awaits(event),
        ensures
            final(self).wf(),
            transition(*old(self), event, *final(self), step),
            step is Fetch ==> (old(self).phase == Phase::Checking && event matches Event::Exists(
                false,
            )),
            step is Persist ==> (old(self).phase == Phase::Fetching && event matches Event::Fetched(
                Ok(_),
            )),
    {
        let ghost s0 = *self;
        match event {
            Event::TitleWritten(_) => self.move_on(),
            Event::Exists(b) => {
                self.answers = Ghost(self.answers@.push(b));
                let d = &self.episodes[self.pos];
                match decide(d, b, self.now) {
                    Verdict::Fetch => {
                        let d = copy_descriptor(d);
                        self.phase = Phase::Fetching;
                        Step::Fetch(d)
                    },
                    Verdict::SkipExisting => self.finish_episode(Outcome::SkippedExisting),
                    Verdict::SkipUnavailable => self.finish_episode(Outcome::SkippedUnavailable),
                }
            },
            Event::Fetched(Err(e)) => self.finish_episode(Outcome::FetchFailed(e)),
            Event::Fetched(Ok(f)) => {
                if f.images.len() == 0 || f.images.len() > 4294967295 {
                    self.finish_episode(Outcome::FetchFailed(Error::ExtractionFailure))
                } else {
                    let (e, a) = episode_rows(
                        self.provider,
                        &self.comic_id,
                        &self.episodes[self.pos],
                        f,
                        self.now,
                    );
                    self.phase = Phase::Persisting;
                    Step::Persist(e, a)
                }
            },
            Event::Persisted(Ok(())) => self.finish_episode(Outcome::Persisted),
            Event::Persisted(Err(e)) => self.finish_episode(Outcome::PersistFailed(e)),
            Event::AttemptRecorded => {
                self.phase = Phase::Done;
                Step::Finished
            },
        }
    }
}

/// How a crawl in state `s` that takes in event `e` ends up in state `t` and
/// gives step `step`.
pub open spec fn transition(s: TargetCrawl, e: Event, t: TargetCrawl, step: Step) -> bool {
    &&& t.provider == s.provider
    &&& t.comic_id == s.comic_id
    &&& t.episodes == s.episodes
    &&& t.now == s.now
    &&& t.answers@ == match e {
        Event::Exists(b) => s.answers@.push(b),
        _ => s.answers@,
    }
    &&& match e {
        Event::TitleWritten(_) => {
            &&& t.pos == s.pos
            &&& t.outcomes == s.outcomes
            &&& t.moved_on(step)
        },
        Event::Exists(b) => {
            let v = verdict(s.current(), b, s.now);
            if v == Verdict::Fetch {
                &&& t.pos == s.pos
                &&& t.phase == Phase::Fetching
                &&& t.outcomes == s.outcomes
                &&& step matches Step::Fetch(d) && d@ == s.current()
            } else {
                &&& t.pos == s.pos + 1
                &&& t.outcomes@ == s.outcomes@.push(skip_outcome(v))
                &&& t.moved_on(step)
            }
        },
        Event::Fetched(Ok(f)) => if is_writable(f) {
            &&& t.pos == s.pos
            &&& t.phase == Phase::Persisting
            &&& t.outcomes == s.outcomes
            &&& step matches Step::Persist(er, ar) && is_episode_row(
                er,
                s.provider,
                s.comic_id@,
                s.current(),
                f,
                s.now,
            ) && are_asset_rows(ar@, s.provider, s.comic_id@, s.current().seq, f, s.now)
        } else {
            &&& t.pos == s.pos + 1
            &&& t.outcomes@ == s.outcomes@.push(Outcome::FetchFailed(Error::ExtractionFailure))
            &&& t.moved_on(step)
        },
        Event::Fetched(Err(err)) => {
            &&& t.pos == s.pos + 1
            &&& t.outcomes@ == s.outcomes@.push(Outcome::FetchFailed(err))
            &&& t.moved_on(step)
        },
        Event::Persisted(r) => {
            &&& t.pos == s.pos + 1
            &&& t.outcomes@ == s.outcomes@.push(
                match r {
                    Ok(_) => Outcome::Persisted,
                    Err(err) => Outcome::PersistFailed(err),
                },
            )
            &&& t.moved_on(step)
        },
        Event::AttemptRecorded => {
            &&& t.pos == s.pos
            &&& t.phase == Phase::Done
            &&& t.outcomes == s.outcomes
            &&& step is Finished
        },
    }
}

/// The episode numbers a target's store holds after a crawl at time `now`
/// over `listing`, from a store that held `stored`: the episodes are dealt
/// with in order, and one whose verdict is to fetch it is added when its fetch
/// and its write succeed (`succeeds`).
pub open spec fn stored_after(
    stored: Set<u32>,
    listing: Seq<DescriptorView>,
    now: i64,
    succeeds: spec_fn(u32) -> bool,
) -> Set<u32>
    decreases listing.len(),
{
    if listing.len() == 0 {
        stored
    } else {
        let s = stored_after(stored, listing.drop_last(), now, succeeds);
        let d = listing.last();
        if verdict(d, s.contains(d.seq), now) == Verdict::Fetch && succeeds(d.seq) {
            s.insert(d.seq)
        } else {
            s
        }
    }
}

/// No two listed episodes share a number.
pub open spec fn numbers_distinct(listing: Seq<DescriptorView>) -> bool {
    forall|i: int, j: int|
        0 <= i < listing.len() && 0 <= j < listing.len() && i != j ==> (#[trigger] listing[i]).seq
            != (#[trigger] listing[j]).seq
}

proof fn lemma_stored_after_grows(
    stored: Set<u32>,
    listing: Seq<DescriptorView>,
    now: i64,
    succeeds: spec_fn(u32) -> bool,
)
    ensures
        stored.subset_of(stored_after(stored, listing, now, succeeds)),
    decreases listing.len(),
{
    if listing.len() > 0 {
        lemma_stored_after_grows(stored, listing.drop_last(), now, succeeds);
    }
}

/// After a crawl in which every fetch and write succeeds, each listed episode
/// is stored or still embargoed.
proof fn lemma_complete_run_covers(stored: Set<u32>, listing: Seq<DescriptorView>, now: i64)
    ensures
        forall|i: int|
            0 <= i < listing.len() ==> stored_after(stored, listing, now, |k: u32| true).contains(
                (#[trigger] listing[i]).seq,
            ) || is_embargoed(listing[i], now),
    decreases listing.len(),
{
    if listing.len() > 0 {
        let pre = listing.drop_last();
        let s = stored_after(stored, pre, now, |k: u32| true);
        lemma_complete_run_covers(stored, pre, now);
        let d = listing.last();
        let s1 = stored_after(stored, listing, now, |k: u32| true);
        assert(s.subset_of(s1));
        assert forall|i: int| 0 <= i < listing.len() implies s1.contains(
            (#[trigger] listing[i]).seq,
        ) || is_embargoed(listing[i], now) by {
            if i < listing.len() - 1 {
                assert(listing[i] == pre[i]);
            }
        }
    }
}

/// A crawl in which no listed episode is to be fetched leaves the store as it
/// was.
proof fn lemma_nothing_to_fetch(
    stored: Set<u32>,
    listing: Seq<DescriptorView>,
    now: i64,
    succeeds: spec_fn(u32) -> bool,
)
    requires
        forall|i: int|
            0 <= i < listing.len() ==> verdict(
                #[trigger] listing[i],
                stored.contains(listing[i].seq),
                now,
            ) != Verdict::Fetch,
    ensures
        stored_after(stored, listing, now, succeeds) == stored,
    decreases listing.len(),
{
    if listing.len() > 0 {
        let pre = listing.drop_last();
        assert forall|i: int| 0 <= i < pre.len() implies verdict(
            #[trigger] pre[i],
            stored.contains(pre[i].seq),
            now,
        ) != Verdict::Fetch by {
            assert(pre[i] == listing[i]);
        }
        lemma_nothing_to_fetch(stored, pre, now, succeeds);
        assert(verdict(listing[listing.len() - 1], stored.contains(listing.last().seq), now)
            != Verdict::Fetch);
    }
}

/// Idempotence: once a crawl in which every fetch and write succeeded is
/// over, a second crawl of the same listing at the same time is to fetch no
/// episode, and adds nothing to the store, whatever becomes of its fetches.
pub proof fn lemma_second_run_adds_nothing(
    stored: Set<u32>,
    listing: Seq<DescriptorView>,
    now: i64,
    succeeds: spec_fn(u32) -> bool,
)
    ensures
        ({
            let first = stored_after(stored, listing, now, |k: u32| true);
            &&& forall|i: int|
                0 <= i < listing.len() ==> verdict(
                    #[trigger] listing[i],
                    first.contains(listing[i].seq),
                    now,
                ) != Verdict::Fetch
            &&& stored_after(first, listing, now, succeeds) == first
        }),
{
    let first = stored_after(stored, listing, now, |k: u32| true);
    lemma_complete_run_covers(stored, listing, now);
    assert forall|i: int| 0 <= i < listing.len() implies verdict(
        #[trigger] listing[i],
        first.contains(listing[i].seq),
        now,
    ) != Verdict::Fetch by {
        assert(first.contains(listing[i].seq) || is_embargoed(listing[i], now));
    }
    lemma_nothing_to_fetch(first, listing, now, succeeds);
}

/// Failure isolation: when listed episodes have distinct numbers, an episode
/// ends up stored exactly when it was stored before, or it was free to fetch
/// and its own fetch and write succeeded. A failure touches no other episode,
/// and the crawl goes on past it.
pub proof fn lemma_failure_isolated(
    stored: Set<u32>,
    listing: Seq<DescriptorView>,
    now: i64,
    succeeds: spec_fn(u32) -> bool,
)
    requires
        numbers_distinct(listing),
    ensures
        forall|i: int|
            0 <= i < listing.len() ==> (stored_after(stored, listing, now, succeeds).contains(
                (#[trigger] listing[i]).seq,
            ) <==> (stored.contains(listing[i].seq) || (!is_embargoed(listing[i], now) && succeeds(
                listing[i].seq,
            )))),
    decreases listing.len(),
{
    if listing.len() > 0 {
        let pre = listing.drop_last();
        let d = listing.last();
        let s = stored_after(stored, pre, now, succeeds);
        assert(numbers_distinct(pre)) by {
            assert forall|i: int, j: int|
                0 <= i < pre.len() && 0 <= j < pre.len() && i != j implies (#[trigger] pre[i]).seq
                != (#[trigger] pre[j]).seq by {
                assert(pre[i] == listing[i]);
                assert(pre[j] == listing[j]);
            }
        }
        lemma_failure_isolated(stored, pre, now, succeeds);
        lemma_stored_after_grows(stored, pre, now, succeeds);
        // the last episode's number is stored before it is dealt with only if it was stored at the start
        assert(s.contains(d.seq) == stored.contains(d.seq)) by {
            if s.contains(d.seq) && !stored.contains(d.seq) {
                lemma_stored_after_only_listed(stored, pre, now, succeeds, d.seq);
                let j = choose|j: int| 0 <= j < pre.len() && pre[j].seq == d.seq;
                assert(listing[j] == pre[j]);
                assert(listing[listing.len() - 1] == d);
            }
        }
        let full = stored_after(stored, listing, now, succeeds);
        assert forall|i: int| 0 <= i < listing.len() implies (full.contains(
            (#[trigger] listing[i]).seq,
        ) <==> (stored.contains(listing[i].seq) || (!is_embargoed(listing[i], now) && succeeds(
            listing[i].seq,
        )))) by {
            if i < listing.len() - 1 {
                assert(listing[i] == pre[i]);
                assert(listing[i].seq != d.seq);
            }
        }
    }
}

/// A number the crawl adds to the store is the number of a listed episode.
proof fn lemma_stored_after_only_listed(
    stored: Set<u32>,
    listing: Seq<DescriptorView>,
    now: i64,
    succeeds: spec_fn(u32) -> bool,
    k: u32,
)
    requires
        stored_after(stored, listing, now, succeeds).contains(k),
        !stored.contains(k),
    ensures
        exists|j: int| 0 <= j < listing.len() && listing[j].seq == k,
    decreases listing.len(),
{
    if listing.len() > 0 {
        let pre = listing.drop_last();
        if stored_after(stored, pre, now, succeeds).contains(k) {
            lemma_stored_after_only_listed(stored, pre, now, succeeds, k);
            let j = choose|j: int| 0 <= j < pre.len() && pre[j].seq == k;
            assert(listing[j] == pre[j]);
        } else {
            assert(listing[listing.len() - 1].seq == k);
        }
    }
}

/// Embargo: an episode that is not free at `now` is left out of the crawl at
/// `now` and is not stored by it; a crawl at a time when it is free fetches it,
/// and stores it if that succeeds.
pub proof fn lemma_embargo_defers(
    stored: Set<u32>,
    d: DescriptorView,
    now: i64,
    later: i64,
    succeeds: spec_fn(u32) -> bool,
)
    requires
        !stored.contains(d.seq),
        is_embargoed(d, now),
        d.available_at->0 <= later,
    ensures
        verdict(d, false, now) == Verdict::SkipUnavailable,
        !stored_after(stored, seq![d], now, succeeds).contains(d.seq),
        verdict(d, false, later) == Verdict::Fetch,
        stored_after(stored_after(stored, seq![d], now, succeeds), seq![d], later, succeeds).contains(
            d.seq,
        ) == succeeds(d.seq),
{
    let one = seq![d];
    assert(one.drop_last() =~= Seq::<DescriptorView>::empty());
    assert(one.last() == d);
    assert(stored_after(stored, one.drop_last(), now, succeeds) == stored);
    let first = stored_after(stored, one, now, succeeds);
    assert(first == stored);
    assert(stored_after(first, one.drop_last(), later, succeeds) == first);
}

/// Resume: a crawl asks for the images of an episode only right after the
/// store said it does not hold that episode.
pub proof fn lemma_fetch_only_when_absent(s: TargetCrawl, e: Event, t: TargetCrawl, step: Step)
    requires
        s.wf(),
        s.awaits(e),
        transition(s, e, t, step),
        step is Fetch,
    ensures
        s.phase == Phase::Checking,
        e matches Event::Exists(false),
        step matches Step::Fetch(d) && d@ == s.current(),
{
}

/// Idempotence on any store: when the store holds every listed episode that
/// is free at `now`, a crawl at `now` is to fetch no episode and adds nothing
/// to the store, whatever becomes of its fetches.
pub proof fn lemma_full_store_adds_nothing(
    stored: Set<u32>,
    listing: Seq<DescriptorView>,
    now: i64,
    succeeds: spec_fn(u32) -> bool,
)
    requires
        forall|i: int|
            0 <= i < listing.len() ==> stored.contains((#[trigger] listing[i]).seq) || is_embargoed(
                listing[i],
                now,
            ),
    ensures
        forall|i: int|
            0 <= i < listing.len() ==> verdict(
                #[trigger] listing[i],
                stored.contains(listing[i].seq),
                now,
            ) != Verdict::Fetch,
        stored_after(stored, listing, now, succeeds) == stored,
{
    assert forall|i: int| 0 <= i < listing.len() implies verdict(
        #[trigger] listing[i],
        stored.contains(listing[i].seq),
        now,
    ) != Verdict::Fetch by {
        assert(stored.contains(listing[i].seq) || is_embargoed(listing[i], now));
    }
    lemma_nothing_to_fetch(stored, listing, now, succeeds);
}

/// The store after the first `j` listed episodes got the outcomes
/// `outcomes`, from a store that held `stored`: each persisted episode is
/// added.
pub open spec fn persisted_upto(
    stored: Set<u32>,
    listing: Seq<DescriptorView>,
    outcomes: Seq<Outcome>,
    j: int,
) -> Set<u32>
    decreases j,
{
    if j <= 0 {
        stored
    } else {
        let s = persisted_upto(stored, listing, outcomes, j - 1);
        if outcomes[j - 1] == Outcome::Persisted {
            s.insert(listing[j - 1].seq)
        } else {
            s
        }
    }
}

/// The store answered truthfully: what it said about each episode is whether
/// it held that episode once the earlier episodes were dealt with.
pub open spec fn answers_truthful(
    stored: Set<u32>,
    listing: Seq<DescriptorView>,
    outcomes: Seq<Outcome>,
    answers: Seq<bool>,
) -> bool {
    forall|i: int|
        0 <= i < answers.len() ==> #[trigger] answers[i] == persisted_upto(
            stored,
            listing,
            outcomes,
            i,
        ).contains(listing[i].seq)
}

/// The numbers of the listed episodes whose outcome is `Persisted`.
pub open spec fn persisted_numbers(listing: Seq<DescriptorView>, outcomes: Seq<Outcome>) -> spec_fn(
    u32,
) -> bool {
    |k: u32|
        exists|i: int|
            0 <= i < listing.len() && #[trigger] listing[i].seq == k && outcomes[i] == Outcome::Persisted
}

proof fn lemma_model_prefix(
    stored: Set<u32>,
    listing: Seq<DescriptorView>,
    outcomes: Seq<Outcome>,
    answers: Seq<bool>,
    now: i64,
    j: int,
)
    requires
        listing.len() == outcomes.len() == answers.len(),
        0 <= j <= listing.len(),
        numbers_distinct(listing),
        forall|i: int|
            0 <= i < listing.len() ==> outcome_follows(
                listing[i],
                answers[i],
                now,
                #[trigger] outcomes[i],
            ),
        answers_truthful(stored, listing, outcomes, answers),
    ensures
        persisted_upto(stored, listing, outcomes, j) == stored_after(
            stored,
            listing.take(j),
            now,
            persisted_numbers(listing, outcomes),
        ),
    decreases j,
{
    if j > 0 {
        lemma_model_prefix(stored, listing, outcomes, answers, now, j - 1);
        let pre = listing.take(j);
        assert(pre.drop_last() =~= listing.take(j - 1));
        assert(pre.last() == listing[j - 1]);
        let d = listing[j - 1];
        let succ = persisted_numbers(listing, outcomes);
        assert(answers[j - 1] == persisted_upto(stored, listing, outcomes, j - 1).contains(d.seq));
        assert(outcome_follows(d, answers[j - 1], now, outcomes[j - 1]));
        if outcomes[j - 1] == Outcome::Persisted {
            assert(listing[j - 1].seq == d.seq);
            assert(succ(d.seq));
        } else if succ(d.seq) {
            let i = choose|i: int|
                0 <= i < listing.len() && #[trigger] listing[i].seq == d.seq && outcomes[i]
                    == Outcome::Persisted;
            assert(i == j - 1);
        }
    }
}

/// A finished crawl whose store answered truthfully leaves the store that
/// the crawl model gives: `stored_after`, where the fetches and writes that
/// succeeded are those of the episodes whose outcome is `Persisted`. The
/// laws over `stored_after` thus hold of every run of the crawl.
pub proof fn lemma_crawl_follows_model(c: TargetCrawl, stored: Set<u32>)
    requires
        c.wf(),
        c.phase == Phase::Recording || c.phase == Phase::Done,
        numbers_distinct(descriptor_views(c.episodes@)),
        answers_truthful(stored, descriptor_views(c.episodes@), c.outcomes@, c.answers@),
    ensures
        persisted_upto(stored, descriptor_views(c.episodes@), c.outcomes@, c.episodes@.len() as int)
            == stored_after(
            stored,
            descriptor_views(c.episodes@),
            c.now,
            persisted_numbers(descriptor_views(c.episodes@), c.outcomes@),
        ),
{
    let views = descriptor_views(c.episodes@);
    assert forall|i: int| 0 <= i < views.len() implies outcome_follows(
        views[i],
        c.answers@[i],
        c.now,
        #[trigger] c.outcomes@[i],
    ) by {
        assert(views[i] == c.episodes@[i]@);
    }
    lemma_model_prefix(stored, views, c.outcomes@, c.answers@, c.now, views.len() as int);
    assert(views.take(views.len() as int) =~= views);
}

} // verus!
