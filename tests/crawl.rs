use std::collections::BTreeMap;

use lzn::crawl::{
    decide, episode_rows, AssetRecord, EpisodeRecord, Event, FetchedEpisode, Outcome, Phase, Step,
    TargetCrawl, Verdict,
};
use lzn::error::Error;
use lzn::model::{EpisodeDescriptor, EpisodeRef, Listing, Provider, Target, TargetStatus};
use lzn::run::{
    providers_to_authenticate, run_result, tally, target_disposition, title_update, Disposition,
    RunCrawl, RunEvent, RunStep, TitleWrite,
};

/// A store kept in memory, as the crawl's caller would keep it in a database.
#[derive(Default)]
struct Store {
    titles: BTreeMap<(Provider, String), Option<String>>,
    episodes: BTreeMap<(Provider, String, u32), EpisodeRecord>,
    assets: BTreeMap<(Provider, String, u32, u32), AssetRecord>,
    attempts: BTreeMap<(Provider, String), i64>,
}

/// What the publisher serves for each episode number: its images, or a
/// failure.
type Upstream = BTreeMap<u32, Result<Vec<Vec<u8>>, Error>>;

fn descriptor(seq: u32, available_at: Option<i64>) -> EpisodeDescriptor {
    EpisodeDescriptor {
        seq,
        reference: EpisodeRef::Name(format!("e{}", seq)),
        title: Some(format!("Episode {}", seq)),
        available_at,
    }
}

/// Drives one target crawl to its end against the store; returns the
/// outcomes and the episode numbers it asked to fetch.
fn drive(
    store: &mut Store,
    provider: Provider,
    comic: &str,
    listing: Vec<EpisodeDescriptor>,
    upstream: &Upstream,
    now: i64,
) -> (Vec<Outcome>, Vec<u32>) {
    let (crawl, step) = TargetCrawl::new(provider, comic.to_string(), listing, now);
    run(store, crawl, step, upstream)
}

/// Performs the steps of a crawl against the store until it finishes.
fn run(store: &mut Store, mut crawl: TargetCrawl, mut step: Step, upstream: &Upstream) -> (Vec<Outcome>, Vec<u32>) {
    let provider = crawl.provider;
    let comic = crawl.comic_id.clone();
    let comic = comic.as_str();
    let mut fetched = Vec::new();
    loop {
        let event = match step {
            Step::UpsertTitle(title) => {
                let key = (provider, comic.to_string());
                let stored = store.titles.get(&key).cloned();
                match title_update(&stored, &title) {
                    TitleWrite::Insert(t) | TitleWrite::Replace(t) => {
                        store.titles.insert(key, Some(t));
                    }
                    TitleWrite::Keep => {}
                }
                Event::TitleWritten(Ok(()))
            }
            Step::CheckExists(seq) => {
                Event::Exists(store.episodes.contains_key(&(provider, comic.to_string(), seq)))
            }
            Step::Fetch(d) => {
                fetched.push(d.seq);
                let r = upstream.get(&d.seq).cloned().unwrap_or(Err(Error::NetworkFailure));
                Event::Fetched(r.map(|images| FetchedEpisode { title: None, images }))
            }
            Step::Persist(e, assets) => {
                for a in assets {
                    store.assets.insert(
                        (a.provider, a.comic_id.clone(), a.episode_seq, a.image_seq),
                        a,
                    );
                }
                store.episodes.insert((e.provider, e.comic_id.clone(), e.seq), e);
                Event::Persisted(Ok(()))
            }
            Step::RecordAttempt(at) => {
                store.attempts.insert((provider, comic.to_string()), at);
                Event::AttemptRecorded
            }
            Step::Finished => break,
        };
        assert!(crawl.accepts(&event));
        step = crawl.advance(event);
    }
    assert_eq!(crawl.phase, Phase::Done);
    (crawl.outcomes, fetched)
}

fn images(n: usize, tag: u8) -> Vec<Vec<u8>> {
    (0..n).map(|i| vec![tag, i as u8]).collect()
}

#[test]
fn end_to_end_single_target() {
    let now = 1_600_000_000_000;
    let mut store = Store::default();
    let targets = vec![Target {
        provider: Provider::Lezhin,
        external_id: "X".to_string(),
        status: TargetStatus::Enabled,
        last_attempt: None,
    }];
    let sessions = providers_to_authenticate(&targets);
    assert_eq!(sessions, vec![Provider::Lezhin]);
    assert_eq!(target_disposition(&targets[0], &sessions), Disposition::Crawl);

    let title = "Sample".to_string();
    let stored = store.titles.get(&(Provider::Lezhin, "X".to_string())).cloned();
    match title_update(&stored, &title) {
        TitleWrite::Insert(t) => {
            store.titles.insert((Provider::Lezhin, "X".to_string()), Some(t));
        }
        other => panic!("expected an insert, got {:?}", other),
    }

    let listing = vec![descriptor(1, None), descriptor(2, None), descriptor(3, None)];
    let mut upstream = Upstream::new();
    upstream.insert(1, Ok(images(1, 1)));
    upstream.insert(2, Ok(images(2, 2)));
    upstream.insert(3, Ok(images(1, 3)));
    let (outcomes, _) = drive(&mut store, Provider::Lezhin, "X", listing, &upstream, now);

    assert_eq!(outcomes, vec![Outcome::Persisted; 3]);
    assert_eq!(
        store.titles.get(&(Provider::Lezhin, "X".to_string())),
        Some(&Some("Sample".to_string()))
    );
    assert_eq!(store.episodes.len(), 3);
    assert_eq!(store.assets.len(), 4);
    let keys: Vec<(u32, u32)> = store.assets.keys().map(|k| (k.2, k.3)).collect();
    assert_eq!(keys, vec![(1, 1), (2, 1), (2, 2), (3, 1)]);
    assert_eq!(store.assets[&(Provider::Lezhin, "X".to_string(), 2, 2)].bytes, vec![2, 1]);
    let e2 = &store.episodes[&(Provider::Lezhin, "X".to_string(), 2)];
    assert_eq!(e2.image_count, 2);
    assert_eq!(e2.title.as_deref(), Some("Episode 2"));
    assert_eq!(e2.created_at, now);
    assert_eq!(store.attempts.get(&(Provider::Lezhin, "X".to_string())), Some(&now));
}

#[test]
fn second_run_inserts_nothing() {
    let now = 1000;
    let mut store = Store::default();
    let listing = vec![descriptor(1, None), descriptor(2, Some(5000)), descriptor(3, None)];
    let mut upstream = Upstream::new();
    for k in 1..=3 {
        upstream.insert(k, Ok(images(2, k as u8)));
    }
    let (first, _) = drive(&mut store, Provider::Naver, "c", listing.clone(), &upstream, now);
    assert_eq!(first, vec![Outcome::Persisted, Outcome::SkippedUnavailable, Outcome::Persisted]);
    let (episodes, assets) = (store.episodes.len(), store.assets.len());
    let (second, fetched) = drive(&mut store, Provider::Naver, "c", listing, &upstream, now);
    assert_eq!(
        second,
        vec![Outcome::SkippedExisting, Outcome::SkippedUnavailable, Outcome::SkippedExisting]
    );
    assert!(fetched.is_empty());
    assert_eq!(store.episodes.len(), episodes);
    assert_eq!(store.assets.len(), assets);
}

#[test]
fn stored_episodes_are_never_fetched() {
    let mut store = Store::default();
    let mut upstream = Upstream::new();
    for k in 1..=4 {
        upstream.insert(k, Ok(images(1, k as u8)));
    }
    drive(&mut store, Provider::Lezhin, "c", vec![descriptor(2, None), descriptor(4, None)], &upstream, 0);
    let listing = (1..=4).map(|k| descriptor(k, None)).collect();
    let (outcomes, fetched) = drive(&mut store, Provider::Lezhin, "c", listing, &upstream, 0);
    assert_eq!(fetched, vec![1, 3]);
    assert_eq!(
        outcomes,
        vec![Outcome::Persisted, Outcome::SkippedExisting, Outcome::Persisted, Outcome::SkippedExisting]
    );
}

#[test]
fn embargoed_episode_waits_for_a_later_run() {
    let mut store = Store::default();
    let mut upstream = Upstream::new();
    upstream.insert(1, Ok(images(1, 1)));
    let listing = vec![descriptor(1, Some(2000))];
    let (o, fetched) = drive(&mut store, Provider::Lezhin, "c", listing.clone(), &upstream, 1999);
    assert_eq!(o, vec![Outcome::SkippedUnavailable]);
    assert!(fetched.is_empty());
    assert!(store.episodes.is_empty());
    assert_eq!(tally(&o).persisted, 0);
    let (o, fetched) = drive(&mut store, Provider::Lezhin, "c", listing, &upstream, 2000);
    assert_eq!(o, vec![Outcome::Persisted]);
    assert_eq!(fetched, vec![1]);
    assert_eq!(store.episodes.len(), 1);
}

#[test]
fn failed_episode_leaves_others_intact() {
    let mut store = Store::default();
    let mut upstream = Upstream::new();
    for k in 1..=7 {
        upstream.insert(k, Ok(images(2, k as u8)));
    }
    upstream.insert(5, Err(Error::NetworkFailure));
    let listing = (1..=7).map(|k| descriptor(k, None)).collect();
    let (o, fetched) = drive(&mut store, Provider::Lezhin, "c", listing, &upstream, 0);
    assert_eq!(fetched, vec![1, 2, 3, 4, 5, 6, 7]);
    assert_eq!(o[4], Outcome::FetchFailed(Error::NetworkFailure));
    let stored: Vec<u32> = store.episodes.keys().map(|k| k.2).collect();
    assert_eq!(stored, vec![1, 2, 3, 4, 6, 7]);
    assert!(store.assets.keys().all(|k| k.2 != 5));
    assert_eq!(store.assets.len(), 12);
    let t = tally(&o);
    assert_eq!((t.persisted, t.failed), (6, 1));
    assert_eq!(store.attempts.get(&(Provider::Lezhin, "c".to_string())), Some(&0));
}

#[test]
fn episode_without_images_is_not_written() {
    let mut store = Store::default();
    let mut upstream = Upstream::new();
    upstream.insert(1, Ok(vec![]));
    let (o, _) = drive(&mut store, Provider::Lezhin, "c", vec![descriptor(1, None)], &upstream, 0);
    assert_eq!(o, vec![Outcome::FetchFailed(Error::ExtractionFailure)]);
    assert!(store.episodes.is_empty());
}

#[test]
fn persist_failure_is_counted_and_crawl_goes_on() {
    let (mut crawl, step) =
        TargetCrawl::new(Provider::Naver, "c".to_string(), vec![descriptor(1, None), descriptor(2, None)], 0);
    assert!(matches!(step, Step::CheckExists(1)));
    let step = crawl.advance(Event::Exists(false));
    assert!(matches!(step, Step::Fetch(ref d) if d.seq == 1));
    let step = crawl.advance(Event::Fetched(Ok(FetchedEpisode { title: Some("T".to_string()), images: images(1, 0) })));
    match &step {
        Step::Persist(e, a) => {
            assert_eq!(e.title.as_deref(), Some("T"));
            assert_eq!(a.len(), 1);
        }
        other => panic!("expected a write, got {:?}", other),
    }
    let step = crawl.advance(Event::Persisted(Err(Error::PersistenceFailure)));
    assert!(matches!(step, Step::CheckExists(2)));
    assert_eq!(crawl.outcomes, vec![Outcome::PersistFailed(Error::PersistenceFailure)]);
    assert!(!crawl.accepts(&Event::AttemptRecorded));
}

#[test]
fn empty_listing_records_the_attempt() {
    let (mut crawl, step) = TargetCrawl::new(Provider::Naver, "c".to_string(), vec![], 77);
    assert!(matches!(step, Step::RecordAttempt(77)));
    assert!(matches!(crawl.advance(Event::AttemptRecorded), Step::Finished));
    assert_eq!(crawl.phase, Phase::Done);
}

#[test]
fn decide_follows_existence_then_embargo() {
    let d = descriptor(1, Some(10));
    assert_eq!(decide(&d, true, 0), Verdict::SkipExisting);
    assert_eq!(decide(&d, false, 9), Verdict::SkipUnavailable);
    assert_eq!(decide(&d, false, 10), Verdict::Fetch);
    assert_eq!(decide(&descriptor(1, None), false, i64::MIN), Verdict::Fetch);
}

#[test]
fn episode_rows_number_images_from_one() {
    let d = descriptor(4, None);
    let f = FetchedEpisode { title: None, images: vec![vec![9], vec![8], vec![7]] };
    let (e, a) = episode_rows(Provider::Naver, &"c".to_string(), &d, f, 55);
    assert_eq!((e.seq, e.image_count, e.created_at), (4, 3, 55));
    assert_eq!(e.title.as_deref(), Some("Episode 4"));
    let seqs: Vec<(u32, u32, Vec<u8>)> = a.iter().map(|r| (r.episode_seq, r.image_seq, r.bytes.clone())).collect();
    assert_eq!(seqs, vec![(4, 1, vec![9]), (4, 2, vec![8]), (4, 3, vec![7])]);
}

#[test]
fn providers_are_authenticated_once_each() {
    let t = |p, s| Target { provider: p, external_id: "i".to_string(), status: s, last_attempt: None };
    let targets = vec![
        t(Provider::Naver, TargetStatus::Disabled),
        t(Provider::Lezhin, TargetStatus::Enabled),
        t(Provider::Naver, TargetStatus::Complete),
        t(Provider::Lezhin, TargetStatus::Enabled),
        t(Provider::Naver, TargetStatus::Enabled),
    ];
    assert_eq!(providers_to_authenticate(&targets), vec![Provider::Lezhin, Provider::Naver]);
    assert_eq!(providers_to_authenticate(&vec![t(Provider::Naver, TargetStatus::Disabled)]), vec![]);
}

#[test]
fn dispositions_follow_status_and_login() {
    let t = |p, s| Target { provider: p, external_id: "i".to_string(), status: s, last_attempt: Some(1) };
    let sessions = vec![Provider::Naver];
    assert_eq!(target_disposition(&t(Provider::Naver, TargetStatus::Enabled), &sessions), Disposition::Crawl);
    assert_eq!(target_disposition(&t(Provider::Lezhin, TargetStatus::Enabled), &sessions), Disposition::NotAuthenticated);
    assert_eq!(target_disposition(&t(Provider::Naver, TargetStatus::Disabled), &sessions), Disposition::NotEnabled);
    assert_eq!(target_disposition(&t(Provider::Naver, TargetStatus::Complete), &sessions), Disposition::NotEnabled);
}

#[test]
fn title_updates_never_clear() {
    let fresh = "New".to_string();
    assert_eq!(title_update(&None, &fresh), TitleWrite::Insert("New".to_string()));
    assert_eq!(title_update(&Some(None), &fresh), TitleWrite::Replace("New".to_string()));
    assert_eq!(title_update(&Some(Some("Old".to_string())), &fresh), TitleWrite::Replace("New".to_string()));
    assert_eq!(title_update(&Some(Some("New".to_string())), &fresh), TitleWrite::Keep);
}

#[test]
fn tally_counts_by_kind() {
    let o = vec![
        Outcome::Persisted,
        Outcome::SkippedExisting,
        Outcome::SkippedExisting,
        Outcome::SkippedUnavailable,
        Outcome::FetchFailed(Error::NetworkFailure),
        Outcome::PersistFailed(Error::PersistenceFailure),
    ];
    let t = tally(&o);
    assert_eq!((t.persisted, t.skipped_existing, t.skipped_unavailable, t.failed), (1, 2, 1, 2));
}

#[test]
fn provider_names_round_trip() {
    assert_eq!(Provider::Lezhin.name(), "lezhin");
    assert_eq!(Provider::from_name("naver"), Some(Provider::Naver));
    assert_eq!(Provider::from_name(Provider::Lezhin.name()), Some(Provider::Lezhin));
    assert_eq!(Provider::from_name("Naver"), None);
    assert!(Provider::Lezhin.needs_login());
    assert!(!Provider::Naver.needs_login());
}

#[test]
fn status_codes_round_trip() {
    assert_eq!(TargetStatus::from_code(0), Some(TargetStatus::Enabled));
    assert_eq!(TargetStatus::from_code(2), Some(TargetStatus::Complete));
    assert_eq!(TargetStatus::from_code(3), None);
    assert_eq!(TargetStatus::from_code(-1), None);
    assert_eq!(TargetStatus::Disabled.code(), 1);
}

#[test]
fn crawl_from_listing_writes_the_title_first() {
    let mut store = Store::default();
    store.titles.insert((Provider::Naver, "c".to_string()), None);
    let listing = Listing { title: "Fresh".to_string(), episodes: vec![descriptor(1, None)] };
    let (crawl, step) = TargetCrawl::from_listing(Provider::Naver, "c".to_string(), Ok(listing), 9).unwrap();
    assert_eq!(crawl.phase, Phase::Titling);
    assert!(matches!(&step, Step::UpsertTitle(t) if t == "Fresh"));
    let mut upstream = Upstream::new();
    upstream.insert(1, Ok(images(1, 1)));
    let (o, _) = run(&mut store, crawl, step, &upstream);
    assert_eq!(o, vec![Outcome::Persisted]);
    assert_eq!(store.titles.get(&(Provider::Naver, "c".to_string())), Some(&Some("Fresh".to_string())));
    assert_eq!(store.attempts.get(&(Provider::Naver, "c".to_string())), Some(&9));
}

#[test]
fn failed_listing_starts_no_crawl() {
    let r = TargetCrawl::from_listing(Provider::Lezhin, "c".to_string(), Err(Error::ExtractionFailure), 9);
    assert_eq!(r.err(), Some(Error::ExtractionFailure));
}

#[test]
fn run_fails_only_when_no_login_succeeds() {
    assert_eq!(run_result(&vec![Provider::Lezhin], &vec![]), Err(Error::AuthenticationFailure));
    assert_eq!(run_result(&vec![Provider::Lezhin, Provider::Naver], &vec![Provider::Naver]), Ok(()));
    assert_eq!(run_result(&vec![Provider::Lezhin], &vec![Provider::Lezhin]), Ok(()));
    assert_eq!(run_result(&vec![], &vec![]), Ok(()));
}

#[test]
fn failure_in_one_target_leaves_the_next_target_crawled() {
    let mut store = Store::default();
    let targets = vec![
        Target { provider: Provider::Naver, external_id: "t1".to_string(), status: TargetStatus::Enabled, last_attempt: None },
        Target { provider: Provider::Naver, external_id: "t2".to_string(), status: TargetStatus::Enabled, last_attempt: None },
    ];
    let sessions = providers_to_authenticate(&targets);
    let mut failing = Upstream::new();
    failing.insert(1, Err(Error::NetworkFailure));
    failing.insert(2, Ok(images(1, 2)));
    let mut fine = Upstream::new();
    fine.insert(1, Ok(images(2, 1)));
    for (t, upstream) in targets.iter().zip([&failing, &fine]) {
        assert_eq!(target_disposition(t, &sessions), Disposition::Crawl);
        let listing = Listing { title: t.external_id.clone(), episodes: vec![descriptor(1, None), descriptor(2, None)] };
        let (crawl, step) = TargetCrawl::from_listing(t.provider, t.external_id.clone(), Ok(listing), 50).unwrap();
        run(&mut store, crawl, step, upstream);
    }
    let stored: Vec<(String, u32)> = store.episodes.keys().map(|k| (k.1.clone(), k.2)).collect();
    assert_eq!(stored, vec![("t1".to_string(), 2), ("t2".to_string(), 1)]);
    assert_eq!(store.attempts.len(), 2);
    assert_eq!(run_result(&sessions, &sessions), Ok(()));
}

/// Drives a whole run: logins succeed for the providers in `logins`, each
/// comic lists as `listings` says, and its episodes are served by `upstream`.
fn drive_run(
    store: &mut Store,
    targets: Vec<Target>,
    logins: &[Provider],
    listings: &BTreeMap<String, Result<Vec<EpisodeDescriptor>, Error>>,
    upstream: &BTreeMap<String, Upstream>,
    now: i64,
) -> (Result<(), Error>, Vec<String>) {
    let (mut run, mut step) = RunCrawl::new(targets, now);
    let mut listed = Vec::new();
    loop {
        let event = match step {
            RunStep::Authenticate(p) => RunEvent::Authenticated(if logins.contains(&p) {
                Ok(())
            } else {
                Err(Error::AuthenticationFailure)
            }),
            RunStep::List(_, comic) => {
                listed.push(comic.clone());
                let r = listings[&comic].clone();
                RunEvent::Listed(r.map(|episodes| Listing { title: comic.clone(), episodes }))
            }
            RunStep::Target(s) => {
                let t = &run.targets[run.current];
                let (provider, comic) = (t.provider, t.external_id.clone());
                let up = &upstream[&comic];
                RunEvent::Target(match s {
                    Step::UpsertTitle(title) => {
                        store.titles.insert((provider, comic.clone()), Some(title));
                        Event::TitleWritten(Ok(()))
                    }
                    Step::CheckExists(seq) => Event::Exists(store.episodes.contains_key(&(provider, comic.clone(), seq))),
                    Step::Fetch(d) => Event::Fetched(
                        up.get(&d.seq)
                            .cloned()
                            .unwrap_or(Err(Error::NetworkFailure))
                            .map(|images| FetchedEpisode { title: None, images }),
                    ),
                    Step::Persist(e, assets) => {
                        for a in assets {
                            store.assets.insert((a.provider, a.comic_id.clone(), a.episode_seq, a.image_seq), a);
                        }
                        store.episodes.insert((e.provider, e.comic_id.clone(), e.seq), e);
                        Event::Persisted(Ok(()))
                    }
                    Step::RecordAttempt(at) => {
                        store.attempts.insert((provider, comic.clone()), at);
                        Event::AttemptRecorded
                    }
                    Step::Finished => panic!("a finished crawl is not handed out"),
                })
            }
            RunStep::Done(r) => return (r, listed),
        };
        assert!(run.accepts(&event));
        step = run.advance(event);
    }
}

fn target(p: Provider, id: &str, status: TargetStatus) -> Target {
    Target { provider: p, external_id: id.to_string(), status, last_attempt: None }
}

#[test]
fn run_isolates_failures_between_targets() {
    let mut store = Store::default();
    let targets = vec![
        target(Provider::Naver, "t1", TargetStatus::Enabled),
        target(Provider::Lezhin, "l1", TargetStatus::Enabled),
        target(Provider::Naver, "bad", TargetStatus::Enabled),
        target(Provider::Naver, "off", TargetStatus::Disabled),
        target(Provider::Naver, "t2", TargetStatus::Enabled),
    ];
    let mut listings = BTreeMap::new();
    listings.insert("t1".to_string(), Ok(vec![descriptor(1, None), descriptor(2, None)]));
    listings.insert("bad".to_string(), Err(Error::ExtractionFailure));
    listings.insert("t2".to_string(), Ok(vec![descriptor(1, None)]));
    let mut upstream = BTreeMap::new();
    let mut u1 = Upstream::new();
    u1.insert(1, Err(Error::NetworkFailure));
    u1.insert(2, Ok(images(1, 2)));
    upstream.insert("t1".to_string(), u1);
    let mut u2 = Upstream::new();
    u2.insert(1, Ok(images(2, 1)));
    upstream.insert("t2".to_string(), u2);
    let (r, listed) = drive_run(&mut store, targets, &[Provider::Naver], &listings, &upstream, 70);
    assert_eq!(r, Ok(()));
    assert_eq!(listed, vec!["t1".to_string(), "bad".to_string(), "t2".to_string()]);
    let stored: Vec<(String, u32)> = store.episodes.keys().map(|k| (k.1.clone(), k.2)).collect();
    assert_eq!(stored, vec![("t1".to_string(), 2), ("t2".to_string(), 1)]);
    let attempted: Vec<String> = store.attempts.keys().map(|k| k.1.clone()).collect();
    assert_eq!(attempted, vec!["t1".to_string(), "t2".to_string()]);
    assert_eq!(store.titles.len(), 2);
}

#[test]
fn run_fails_when_the_only_provider_cannot_log_in() {
    let mut store = Store::default();
    let targets = vec![target(Provider::Lezhin, "l1", TargetStatus::Enabled)];
    let (r, listed) = drive_run(&mut store, targets, &[], &BTreeMap::new(), &BTreeMap::new(), 1);
    assert_eq!(r, Err(Error::AuthenticationFailure));
    assert!(listed.is_empty());
    assert!(store.attempts.is_empty());
}

#[test]
fn run_without_enabled_targets_is_done() {
    let mut store = Store::default();
    let targets = vec![target(Provider::Lezhin, "l1", TargetStatus::Complete)];
    let (r, listed) = drive_run(&mut store, targets, &[], &BTreeMap::new(), &BTreeMap::new(), 1);
    assert_eq!(r, Ok(()));
    assert!(listed.is_empty());
}
