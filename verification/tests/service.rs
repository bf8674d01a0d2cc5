use sparrow_tv::cache::{outcome_of, Cache, CacheError, FetchOutcome, Freshness};
use sparrow_tv::epg::{Channel, Epg, Programme};
use sparrow_tv::playlist::{EntryMap, Playlist, PlaylistEntry};
use sparrow_tv::search::{channel_label, cross_reference, join_channel_name, search, SearchQuery};
use sparrow_tv::timestamp::Timestamp;

const HOUR: i64 = 3600;
const MINUTE: i64 = 60;

fn ts(text: &str) -> Timestamp {
    Timestamp::parse(text).unwrap()
}

fn entry(id: &str, group: &str, name: &str) -> PlaylistEntry {
    PlaylistEntry {
        duration: -1,
        tvg_id: id.to_string(),
        tvg_name: name.to_string(),
        tvg_logo: String::new(),
        group_title: group.to_string(),
        name: name.to_string(),
        url: format!("http://host/{}", id),
    }
}

fn channel(id: &str, name: &str) -> Channel {
    Channel { id: id.to_string(), display_name: name.to_string(), icon: None }
}

fn programme(start: &str, channel: &str, title: &str) -> Programme {
    Programme {
        start: ts(start),
        stop: ts("20241017235959 +0000"),
        channel: channel.to_string(),
        title: title.to_string(),
        desc: "about".to_string(),
    }
}

fn guide() -> Epg {
    Epg {
        channels: vec![channel("one", "Channel One"), channel("two", "Channel Two"), channel("three", "Channel Three")],
        programmes: vec![
            programme("20241017150000 +0000", "two", "Evening show"),
            programme("20241017130000 +0000", "one", "Morning show"),
            programme("20241017140000 +0000", "nowhere", "Lost show"),
            programme("20241017120000 +0000", "three", "Early show"),
            programme("20241017160000 +0000", "one", "Film"),
        ],
    }
}

fn playlist() -> Playlist {
    let mut playlist = Playlist::new(vec![
        entry("one", "Sweden", "One HD"),
        entry("two", "Hidden", "Two Show HD"),
        entry("four", "Sweden", "The Show Channel"),
    ]);
    playlist.exclude_groups(vec!["Hidden"]);
    playlist
}

#[test]
fn a_fresh_value_is_served_without_a_fetch() {
    let mut cache: Cache<String> = Cache::new(HOUR);
    assert_eq!(cache.state(0), Freshness::Empty);
    assert!(cache.read(0).is_none());
    let served = cache.complete(FetchOutcome::Fetched("first".to_string()), 1000).unwrap().clone();
    assert_eq!(served, "first");
    assert_eq!(cache.state(1000 + 30 * MINUTE), Freshness::Fresh);
    assert_eq!(cache.read(1000 + 30 * MINUTE), Some(&"first".to_string()));
    assert_eq!(cache.read(1000 + HOUR - 1), Some(&"first".to_string()));
    assert!(!cache.is_stale(1000 + 30 * MINUTE));
}

#[test]
fn a_stale_value_is_fetched_again_and_stamped() {
    let mut cache: Cache<String> = Cache::new(HOUR);
    cache.complete(FetchOutcome::Fetched("first".to_string()), 1000).unwrap();
    let later = 1000 + 61 * MINUTE;
    assert_eq!(cache.state(later), Freshness::Stale);
    assert!(cache.is_stale(later));
    assert!(cache.read(later).is_none());
    assert!(cache.read(1000 + HOUR).is_none());
    let served = cache.complete(FetchOutcome::Fetched("second".to_string()), later).unwrap().clone();
    assert_eq!(served, "second");
    assert_eq!(cache.slot.as_ref().unwrap().fetched_at, later);
    assert_eq!(cache.read(later + 30 * MINUTE), Some(&"second".to_string()));
}

#[test]
fn a_failed_fetch_keeps_value_and_time_and_is_tried_again() {
    let mut cache: Cache<String> = Cache::new(HOUR);
    cache.complete(FetchOutcome::Fetched("first".to_string()), 1000).unwrap();
    let later = 1000 + 2 * HOUR;
    assert!(cache.read(later).is_none());
    let outcome = outcome_of(500, Some("broken".to_string()));
    assert!(matches!(outcome, FetchOutcome::Failed));
    let served = cache.complete(outcome, later).unwrap().clone();
    assert_eq!(served, "first");
    assert_eq!(cache.slot.as_ref().unwrap().value, "first");
    assert_eq!(cache.slot.as_ref().unwrap().fetched_at, 1000);
    assert!(cache.read(later).is_none());
    assert!(cache.read(later + 1).is_none());
    assert!(cache.is_stale(later + 1));
}

#[test]
fn a_failed_first_fetch_leaves_nothing_to_serve() {
    let mut cache: Cache<String> = Cache::new(HOUR);
    assert_eq!(
        cache.complete(FetchOutcome::Failed, 5).map(|v| v.clone()),
        Err(CacheError::NoDataAvailable)
    );
    assert_eq!(cache.state(5), Freshness::Empty);
    assert!(!cache.is_stale(5));
    assert!(cache.read(5).is_none());
}

#[test]
fn only_a_success_status_with_a_document_is_a_fetch() {
    assert!(matches!(outcome_of(200, Some(1)), FetchOutcome::Fetched(1)));
    assert!(matches!(outcome_of(299, Some(1)), FetchOutcome::Fetched(1)));
    assert!(matches!(outcome_of(199, Some(1)), FetchOutcome::Failed));
    assert!(matches!(outcome_of(300, Some(1)), FetchOutcome::Failed));
    assert!(matches!(outcome_of(404, Some(1)), FetchOutcome::Failed));
    assert!(matches!(outcome_of(500, Some(1)), FetchOutcome::Failed));
    assert!(matches!(outcome_of(200, None::<i32>), FetchOutcome::Failed));
}

#[test]
fn a_preloaded_value_may_be_stamped_ahead() {
    let cache = Cache::preloaded(7, i64::MAX, HOUR);
    assert_eq!(cache.read(i64::MIN), Some(&7));
    assert_eq!(cache.read(0), Some(&7));
    let old = Cache::preloaded(7, i64::MIN, HOUR);
    assert!(old.read(i64::MAX).is_none());
    assert!(old.is_stale(i64::MAX));
}

#[test]
fn a_programme_is_joined_to_name_and_group() {
    let epg = guide();
    let channels = epg.channel_map();
    let entries = EntryMap::new(&playlist().filtered_entries);
    let joined = |i: usize| join_channel_name(&epg.programmes[i], &channels, &entries);
    assert_eq!(joined(1), ("Channel One".to_string(), Some("Sweden".to_string())));
    assert_eq!(joined(0), ("Channel Two".to_string(), None));
    assert_eq!(joined(2), ("Unknown channel".to_string(), None));
    assert_eq!(joined(3), ("Channel Three".to_string(), None));
    let all = EntryMap::new(&playlist().entries);
    assert_eq!(
        join_channel_name(&epg.programmes[0], &channels, &all),
        ("Channel Two".to_string(), Some("Hidden".to_string()))
    );
}

#[test]
fn a_search_leaves_out_what_is_not_offered() {
    let query = SearchQuery { search_query: "show".to_string(), include_hidden: None };
    let result = search(&query, &guide(), &playlist(), &ts("20241017100000 +0000"));
    let found: Vec<(&str, &str, Option<&str>)> = result
        .programmes
        .iter()
        .map(|p| (p.programme_title.as_str(), p.channel_name.as_str(), p.channel_group.as_deref()))
        .collect();
    assert_eq!(found, vec![("Morning show", "Channel One", Some("Sweden"))]);
    assert_eq!(result.programmes[0].programme_desc, "about");
    assert_eq!(result.programmes[0].start, ts("20241017130000 +0000"));
    assert_eq!(result.programmes[0].stop, ts("20241017235959 +0000"));
    let names: Vec<&str> = result.channels.iter().map(|c| c.channel_name.as_str()).collect();
    assert_eq!(names, vec!["The Show Channel (Sweden)"]);
    let same = SearchQuery { search_query: "show".to_string(), include_hidden: Some(false) };
    let result = search(&same, &guide(), &playlist(), &ts("20241017100000 +0000"));
    assert_eq!(result.programmes.len(), 1);
    assert_eq!(result.channels.len(), 1);
}

#[test]
fn a_search_may_include_what_is_hidden() {
    let query = SearchQuery { search_query: "SHOW".to_string(), include_hidden: Some(true) };
    let result = search(&query, &guide(), &playlist(), &ts("20241017100000 +0000"));
    let found: Vec<(&str, &str, Option<&str>)> = result
        .programmes
        .iter()
        .map(|p| (p.programme_title.as_str(), p.channel_name.as_str(), p.channel_group.as_deref()))
        .collect();
    assert_eq!(
        found,
        vec![
            ("Early show", "Channel Three", None),
            ("Morning show", "Channel One", Some("Sweden")),
            ("Lost show", "Unknown channel", None),
            ("Evening show", "Channel Two", Some("Hidden")),
        ]
    );
    let names: Vec<&str> = result.channels.iter().map(|c| c.channel_name.as_str()).collect();
    assert_eq!(names, vec!["Two Show HD (Hidden)", "The Show Channel (Sweden)"]);
}

#[test]
fn a_search_after_the_last_stop_finds_no_programme() {
    let query = SearchQuery { search_query: "show".to_string(), include_hidden: Some(true) };
    let result = search(&query, &guide(), &playlist(), &ts("20241018000000 +0000"));
    assert_eq!(result.programmes.len(), 0);
    assert_eq!(result.channels.len(), 2);
}

#[test]
fn results_are_joined_for_given_hits_and_marks() {
    let epg = guide();
    let hits = vec![epg.programmes[4].clone(), epg.programmes[0].clone()];
    let entries = playlist().entries;
    let result = cross_reference(&hits, &vec![false, true], &epg, &entries, false);
    let titles: Vec<&str> = result.programmes.iter().map(|p| p.programme_title.as_str()).collect();
    assert_eq!(titles, vec!["Film", "Evening show"]);
    let names: Vec<&str> = result.channels.iter().map(|c| c.channel_name.as_str()).collect();
    assert_eq!(names, vec!["Two Show HD (Hidden)"]);
    assert_eq!(channel_label(&entries[0]), "One HD (Sweden)");
}
