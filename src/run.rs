//! The decisions of a run over the whole target registry: which providers to
//! log in to, which targets to crawl, how a title is written, and the counts
//! reported at the end.
use vstd::prelude::*;

use crate::crawl::{transition, Event, Outcome, Phase, Step, TargetCrawl};
use crate::error::Error;
use crate::model::{Listing, Provider, Target, TargetStatus};

verus! {

/// The providers of the enabled targets, each once, in the order of their
/// first enabled target.
pub open spec fn providers_in_use(targets: Seq<Target>) -> Seq<Provider>
    decreases targets.len(),
{
    if targets.len() == 0 {
        Seq::empty()
    } else {
        let before = providers_in_use(targets.drop_last());
        let t = targets.last();
        if t.status == TargetStatus::Enabled && !before.contains(t.provider) {
            before.push(t.provider)
        } else {
            before
        }
    }
}

/// The providers to log in to for a run over `targets`: one login per
/// provider that at least one enabled target uses.
pub fn providers_to_authenticate(targets: &Vec<Target>) -> (r: Vec<Provider>)
    ensures
        r@ == providers_in_use(targets@),
{
    let mut r: Vec<Provider> = Vec::new();
    let mut i: usize = 0;
    while i < targets.len()
        invariant
            i <= targets@.len(),
            r@ == providers_in_use(targets@.subrange(0, i as int)),
        decreases targets@.len() - i,
    {
        let ghost pre = targets@.subrange(0, i as int);
        let ghost next = targets@.subrange(0, i + 1);
        assert(next.drop_last() =~= pre);
        let t = &targets[i];
        if t.status == TargetStatus::Enabled {
            let mut seen = false;
            let mut j: usize = 0;
            while j < r.len()
                invariant
                    j <= r@.len(),
                    seen == exists|k: int| 0 <= k < j && r@[k] == t.provider,
                decreases r@.len() - j,
            {
                if r[j] == t.provider {
                    seen = true;
                }
                j = j + 1;
            }
            if !seen {
                r.push(t.provider);
            }
        }
        i = i + 1;
    }
    assert(targets@.subrange(0, targets@.len() as int) =~= targets@);
    r
}

/// What a run does with one target.
#[derive(Debug, Clone, Copy, PartialEq, Eq, Structural)]
pub enum Disposition {
    /// The target is crawled.
    Crawl,
    /// The target is not enabled: left alone.
    NotEnabled,
    /// The login to the target's provider failed: left alone this run.
    NotAuthenticated,
}

/// What a run does with target `t` when the logins that succeeded are those
/// to `sessions`.
pub open spec fn disposition(t: Target, sessions: Seq<Provider>) -> Disposition {
    if t.status != TargetStatus::Enabled {
        Disposition::NotEnabled
    } else if !sessions.contains(t.provider) {
        Disposition::NotAuthenticated
    } else {
        Disposition::Crawl
    }
}

/// Decides what a run does with one target.
pub fn target_disposition(t: &Target, sessions: &Vec<Provider>) -> (r: Disposition)
    ensures
        r == disposition(*t, sessions@),
{
    if t.status != TargetStatus::Enabled {
        return Disposition::NotEnabled;
    }
    let mut j: usize = 0;
    while j < sessions.len()
        invariant
            j <= sessions@.len(),
            t.status == TargetStatus::Enabled,
            forall|k: int| 0 <= k < j ==> sessions@[k] != t.provider,
        decreases sessions@.len() - j,
    {
        if sessions[j] == t.provider {
            assert(sessions@[j as int] == t.provider);
            return Disposition::Crawl;
        }
        j = j + 1;
    }
    Disposition::NotAuthenticated
}

/// The result of a whole run, given the providers its enabled targets use
/// and the logins that succeeded: it fails only when there was a provider to
/// log in to and no login succeeded, since no target could then be crawled.
/// Failures of single episodes or targets are counted, not returned.
pub fn run_result(in_use: &Vec<Provider>, sessions: &Vec<Provider>) -> (r: Result<(), Error>)
    ensures
        r == (if in_use@.len() > 0 && sessions@.len() == 0 {
            Err::<(), Error>(Error::AuthenticationFailure)
        } else {
            Ok::<(), Error>(())
        }),
{
    if in_use.len() > 0 && sessions.len() == 0 {
        Err(Error::AuthenticationFailure)
    } else {
        Ok(())
    }
}

/// How the stored title of a comic is brought up to date.
#[derive(Debug, Clone, PartialEq, Eq)]
pub enum TitleWrite {
    /// No title row exists: insert one with this title.
    Insert(String),
    /// Overwrite the stored title with this one.
    Replace(String),
    /// The stored title stays.
    Keep,
}

/// The write that brings a title row up to date with a freshly fetched title.
/// `stored` is the row's title when a row exists. A fresh title replaces a
/// missing or different one; a stored title is never cleared.
pub open spec fn title_write(stored: Option<Option<Seq<char>>>, fresh: Seq<char>) -> Option<
    (bool, Seq<char>),
> {
    match stored {
        None => Some((true, fresh)),
        Some(None) => Some((false, fresh)),
        Some(Some(old)) => if old == fresh {
            None
        } else {
            Some((false, fresh))
        },
    }
}

/// A write as plain values: whether it inserts, and the title it writes;
/// none when the title stays.
pub open spec fn title_write_view(w: TitleWrite) -> Option<(bool, Seq<char>)> {
    match w {
        TitleWrite::Insert(t) => Some((true, t@)),
        TitleWrite::Replace(t) => Some((false, t@)),
        TitleWrite::Keep => None,
    }
}

/// Decides how to bring a stored title up to date with a fresh one.
pub fn title_update(stored: &Option<Option<String>>, fresh: &String) -> (r: TitleWrite)
    ensures
        title_write_view(r) == title_write(stored.deep_view(), fresh@),
{
    match stored {
        None => TitleWrite::Insert(fresh.clone()),
        Some(None) => TitleWrite::Replace(fresh.clone()),
        Some(Some(old)) => if *old == *fresh {
            TitleWrite::Keep
        } else {
            TitleWrite::Replace(fresh.clone())
        },
    }
}

/// How many episode outcomes satisfy `p`.
pub open spec fn count_where(s: Seq<Outcome>, p: spec_fn(Outcome) -> bool) -> nat
    decreases s.len(),
{
    if s.len() == 0 {
        0
    } else {
        count_where(s.drop_last(), p) + if p(s.last()) {
            1nat
        } else {
            0nat
        }
    }
}

pub open spec fn is_failure(o: Outcome) -> bool {
    o is FetchFailed || o is PersistFailed
}

/// The counts a target crawl reports.
#[derive(Debug, Clone, Copy, PartialEq, Eq, Structural)]
pub struct Tally {
    pub persisted: usize,
    pub skipped_existing: usize,
    pub skipped_unavailable: usize,
    pub failed: usize,
}

proof fn lemma_count_le(s: Seq<Outcome>, p: spec_fn(Outcome) -> bool)
    ensures
        count_where(s, p) <= s.len(),
    decreases s.len(),
{
    if s.len() > 0 {
        lemma_count_le(s.drop_last(), p);
    }
}

/// Counts the outcomes of a target crawl by kind.
pub fn tally(outcomes: &Vec<Outcome>) -> (r: Tally)
    ensures
        r.persisted == count_where(outcomes@, |o: Outcome| o == Outcome::Persisted),
        r.skipped_existing == count_where(outcomes@, |o: Outcome| o == Outcome::SkippedExisting),
        r.skipped_unavailable == count_where(outcomes@, |o: Outcome| o == Outcome::SkippedUnavailable),
        r.failed == count_where(outcomes@, |o: Outcome| is_failure(o)),
{
    let mut t = Tally { persisted: 0, skipped_existing: 0, skipped_unavailable: 0, failed: 0 };
    let mut i: usize = 0;
    while i < outcomes.len()
        invariant
            i <= outcomes@.len(),
            t.persisted == count_where(outcomes@.subrange(0, i as int), |o: Outcome| o == Outcome::Persisted),
            t.skipped_existing == count_where(
                outcomes@.subrange(0, i as int),
                |o: Outcome| o == Outcome::SkippedExisting,
            ),
            t.skipped_unavailable == count_where(
                outcomes@.subrange(0, i as int),
                |o: Outcome| o == Outcome::SkippedUnavailable,
            ),
            t.failed == count_where(outcomes@.subrange(0, i as int), |o: Outcome| is_failure(o)),
        decreases outcomes@.len() - i,
    {
        let ghost pre = outcomes@.subrange(0, i as int);
        let ghost next = outcomes@.subrange(0, i + 1);
        assert(next.drop_last() =~= pre);
        proof {
            lemma_count_le(pre, |o: Outcome| o == Outcome::Persisted);
            lemma_count_le(pre, |o: Outcome| o == Outcome::SkippedExisting);
            lemma_count_le(pre, |o: Outcome| o == Outcome::SkippedUnavailable);
            lemma_count_le(pre, |o: Outcome| is_failure(o));
        }
        match outcomes[i] {
            Outcome::Persisted => t.persisted = t.persisted + 1,
            Outcome::SkippedExisting => t.skipped_existing = t.skipped_existing + 1,
            Outcome::SkippedUnavailable => t.skipped_unavailable = t.skipped_unavailable + 1,
            Outcome::FetchFailed(_) => t.failed = t.failed + 1,
            Outcome::PersistFailed(_) => t.failed = t.failed + 1,
        }
        i = i + 1;
    }
    assert(outcomes@.subrange(0, i as int) =~= outcomes@);
    t
}

/// The first target at or after `k` that the run crawls, or the number of
/// targets when there is none.
pub open spec fn next_crawlable(targets: Seq<Target>, sessions: Seq<Provider>, k: int) -> int
    decreases targets.len() - k,
{
    if k < 0 || k >= targets.len() {
        targets.len() as int
    } else if disposition(targets[k], sessions) == Disposition::Crawl {
        k
    } else {
        next_crawlable(targets, sessions, k + 1)
    }
}

proof fn lemma_next_crawlable_bounds(targets: Seq<Target>, sessions: Seq<Provider>, k: int)
    requires
        0 <= k <= targets.len(),
    ensures
        k <= next_crawlable(targets, sessions, k) <= targets.len(),
        next_crawlable(targets, sessions, k) < targets.len() ==> disposition(
            targets[next_crawlable(targets, sessions, k)],
            sessions,
        ) == Disposition::Crawl,
    decreases targets.len() - k,
{
    if k < targets.len() && disposition(targets[k], sessions) != Disposition::Crawl {
        lemma_next_crawlable_bounds(targets, sessions, k + 1);
    }
}

/// Where a run stands.
#[derive(Debug, Clone, Copy, PartialEq, Eq, Structural)]
pub enum RunPhase {
    /// Waiting for the result of a login.
    Authenticating,
    /// Waiting for the listing of the current target.
    Listing,
    /// Crawling the current target.
    Crawling,
    /// Every target is dealt with.
    Finished,
}

/// What the caller of a run is to do next.
pub enum RunStep {
    /// Log in to this provider.
    Authenticate(Provider),
    /// List the episodes of this comic of this provider.
    List(Provider, String),
    /// Perform this step of the current target's crawl.
    Target(Step),
    /// The run is over, with this result.
    Done(Result<(), Error>),
}

/// What the caller of a run learnt by performing a step.
pub enum RunEvent {
    /// The result of the login asked for.
    Authenticated(Result<(), Error>),
    /// The result of the listing asked for.
    Listed(Result<Listing, Error>),
    /// What came of a step of the current target's crawl.
    Target(Event),
}

/// One pass over the target registry: a login per provider in use, then each
/// target in registry order.
pub struct RunCrawl {
    pub targets: Vec<Target>,
    /// The providers to log in to.
    pub in_use: Vec<Provider>,
    /// The providers whose login succeeded.
    pub sessions: Vec<Provider>,
    /// The run's time, in milliseconds since the epoch.
    pub now: i64,
    /// The next provider of `in_use` to log in to.
    pub next_login: usize,
    /// The target being dealt with.
    pub current: usize,
    pub phase: RunPhase,
    /// The crawl of the current target, while it runs.
    pub crawl: Option<TargetCrawl>,
}

/// The run's result as plain values.
pub open spec fn result_of(in_use: Seq<Provider>, sessions: Seq<Provider>) -> Result<(), Error> {
    if in_use.len() > 0 && sessions.len() == 0 {
        Err(Error::AuthenticationFailure)
    } else {
        Ok(())
    }
}

impl RunCrawl {
    pub open spec fn wf(&self) -> bool {
        &&& self.in_use@ == providers_in_use(self.targets@)
        &&& self.next_login <= self.in_use@.len()
        &&& self.current <= self.targets@.len()
        &&& self.phase == RunPhase::Authenticating ==> self.next_login < self.in_use@.len()
        &&& self.phase != RunPhase::Authenticating ==> self.next_login == self.in_use@.len()
        &&& (self.phase == RunPhase::Listing || self.phase == RunPhase::Crawling) ==> {
            &&& self.current < self.targets@.len()
            &&& disposition(self.targets@[self.current as int], self.sessions@) == Disposition::Crawl
        }
        &&& self.phase == RunPhase::Crawling <==> self.crawl is Some
        &&& self.crawl matches Some(c) ==> c.wf() && c.phase != Phase::Done && c.provider
            == self.targets@[self.current as int].provider
        &&& self.phase == RunPhase::Finished ==> self.current == self.targets@.len()
    }

    /// The event the run waits for is of the kind of `e`.
    pub open spec fn awaits(&self, e: RunEvent) -> bool {
        match self.phase {
            RunPhase::Authenticating => e is Authenticated,
            RunPhase::Listing => e is Listed,
            RunPhase::Crawling => e matches RunEvent::Target(te) && self.crawl->0.awaits(te),
            RunPhase::Finished => false,
        }
    }

    /// The run has moved on to the first target at or after `k` that it
    /// crawls, and `step` asks for its listing; when there is none, the run
    /// is over and `step` gives its result.
    pub open spec fn moved_to(&self, k: int, step: RunStep) -> bool {
        let j = next_crawlable(self.targets@, self.sessions@, k);
        &&& self.current == j
        &&& if j < self.targets@.len() {
            &&& self.phase == RunPhase::Listing
            &&& step matches RunStep::List(p, id) && p == self.targets@[j].provider && id@
                == self.targets@[j].external_id@
        } else {
            &&& self.phase == RunPhase::Finished
            &&& step matches RunStep::Done(r) && r == result_of(self.in_use@, self.sessions@)
        }
    }

    /// Whether `e` is the kind of event the run waits for.
    pub fn accepts(&self, e: &RunEvent) -> (r: bool)
        requires
            self.wf(),
        ensures
            r == self.awaits(*e),
    {
        match (self.phase, e) {
            (RunPhase::Authenticating, RunEvent::Authenticated(_)) => true,
            (RunPhase::Listing, RunEvent::Listed(_)) => true,
            (RunPhase::Crawling, RunEvent::Target(te)) => match &self.crawl {
                Some(c) => c.accepts(te),
                None => false,
            },
            _ => false,
        }
    }

    /// Moves on to the first target at or after `k` that the run crawls.
    fn seek(&mut self, k: usize) -> (step: RunStep)
        requires
            k <= old(self).targets@.len(),
            old(self).in_use@ == providers_in_use(old(self).targets@),
            old(self).next_login == old(self).in_use@.len(),
        ensures
            final(self).wf(),
            final(self).moved_to(k as int, step),
            final(self).targets == old(self).targets,
            final(self).in_use == old(self).in_use,
            final(self).sessions == old(self).sessions,
            final(self).now == old(self).now,
            final(self).next_login == old(self).next_login,
    {
        self.crawl = None;
        let mut j: usize = k;
        proof {
            lemma_next_crawlable_bounds(self.targets@, self.sessions@, k as int);
        }
        while j < self.targets.len() && target_disposition(&self.targets[j], &self.sessions)
            != Disposition::Crawl
            invariant
                k <= j <= self.targets@.len(),
                self.crawl is None,
                self.targets == old(self).targets,
                self.in_use == old(self).in_use,
                self.sessions == old(self).sessions,
                self.now == old(self).now,
                self.next_login == old(self).next_login,
                self.in_use@ == providers_in_use(self.targets@),
                self.next_login == self.in_use@.len(),
                next_crawlable(self.targets@, self.sessions@, k as int) == next_crawlable(
                    self.targets@,
                    self.sessions@,
                    j as int,
                ),
            decreases self.targets@.len() - j,
        {
            j = j + 1;
        }
        proof {
            lemma_next_crawlable_bounds(self.targets@, self.sessions@, k as int);
        }
        self.current = j;
        if j < self.targets.len() {
            self.phase = RunPhase::Listing;
            let t = &self.targets[j];
            RunStep::List(t.provider, t.external_id.clone())
        } else {
            self.phase = RunPhase::Finished;
            RunStep::Done(run_result(&self.in_use, &self.sessions))
        }
    }

    /// Starts a run over the registry at time `now`: the first step logs in
    /// to the first provider in use, or, with none, goes to the targets.
    pub fn new(targets: Vec<Target>, now: i64) -> (r: (RunCrawl, RunStep))
        ensures
            r.0.wf(),
            r.0.targets@ == targets@,
            r.0.in_use@ == providers_in_use(targets@),
            r.0.sessions@.len() == 0,
            r.0.now == now,
            r.0.in_use@.len() > 0 ==> (r.0.phase == RunPhase::Authenticating && (r.1 matches RunStep::Authenticate(p)
                && p == r.0.in_use@[0])),
            r.0.in_use@.len() == 0 ==> r.0.moved_to(0, r.1),
    {
        let in_use = providers_to_authenticate(&targets);
        let mut run = RunCrawl {
            targets,
            in_use,
            sessions: Vec::new(),
            now,
            next_login: 0,
            current: 0,
            phase: RunPhase::Authenticating,
            crawl: None,
        };
        if run.in_use.len() > 0 {
            let p = run.in_use[0];
            (run, RunStep::Authenticate(p))
        } else {
            let step = run.seek(0);
            (run, step)
        }
    }

    /// Takes in what came of the last step, and gives the next. A failed
    /// listing or a finished target crawl moves the run on to the next target
    /// it crawls, whatever became of the target's episodes.
    pub fn advance(&mut self, event: RunEvent) -> (step: RunStep)
        requires
            old(self).wf(),
            old(self).awaits(event),
        ensures
            final(self).wf(),
            final(self).targets == old(self).targets,
            final(self).in_use == old(self).in_use,
            final(self).now == old(self).now,
            match event {
                RunEvent::Authenticated(r) => {
                    &&& final(self).sessions@ == (if r is Ok {
                        old(self).sessions@.push(old(self).in_use@[old(self).next_login as int])
                    } else {
                        old(self).sessions@
                    })
                    &&& final(self).next_login == old(self).next_login + 1
                    &&& if final(self).next_login < final(self).in_use@.len() {
                        &&& final(self).phase == RunPhase::Authenticating
                        &&& step matches RunStep::Authenticate(p) && p == final(self).in_use@[final(self).next_login as int]
                    } else {
                        final(self).moved_to(0, step)
                    }
                },
                RunEvent::Listed(Err(_)) => {
                    &&& final(self).sessions == old(self).sessions
                    &&& final(self).moved_to(old(self).current + 1, step)
                },
                RunEvent::Listed(Ok(l)) => {
                    &&& final(self).sessions == old(self).sessions
                    &&& final(self).current == old(self).current
                    &&& final(self).phase == RunPhase::Crawling
                    &&& final(self).crawl matches Some(c) && c.episodes@ == l.episodes@ && c.now
                        == old(self).now && c.comic_id@ == old(self).targets@[old(self).current as int].external_id@
                    &&& step matches RunStep::Target(Step::UpsertTitle(t)) && t@ == l.title@
                },
                RunEvent::Target(e) => {
                    &&& final(self).sessions == old(self).sessions
                    &&& exists|c: TargetCrawl, s: Step|
                        transition(old(self).crawl->0, e, c, s) && if s is Finished {
                            final(self).moved_to(old(self).current + 1, step)
                        } else {
                            &&& final(self).current == old(self).current
                            &&& final(self).crawl == Some(c)
                            &&& step matches RunStep::Target(s2) && s2 == s
                        }
                },
            },
    {
        match event {
            RunEvent::Authenticated(r) => {
                if r.is_ok() {
                    let p = self.in_use[self.next_login];
                    self.sessions.push(p);
                }
                assert(self.next_login < self.in_use.len());
                self.next_login = self.next_login + 1;
                if self.next_login < self.in_use.len() {
                    RunStep::Authenticate(self.in_use[self.next_login])
                } else {
                    self.seek(0)
                }
            },
            RunEvent::Listed(listing) => {
                assert(self.current < self.targets.len());
                let t = &self.targets[self.current];
                let provider = t.provider;
                let id = t.external_id.clone();
                match TargetCrawl::from_listing(provider, id, listing, self.now) {
                    Ok((c, s)) => {
                        self.crawl = Some(c);
                        self.phase = RunPhase::Crawling;
                        RunStep::Target(s)
                    },
                    Err(_) => self.seek(self.current + 1),
                }
            },
            RunEvent::Target(e) => {
                assert(self.current < self.targets.len());
                let mut c = self.crawl.take().unwrap();
                let s = c.advance(e);
                match s {
                    Step::Finished => self.seek(self.current + 1),
                    _ => {
                        self.crawl = Some(c);
                        RunStep::Target(s)
                    },
                }
            },
        }
    }
}

} // verus!
