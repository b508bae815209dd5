use tmdb2seer::cache::rating_key;
use tmdb2seer::{CacheManager, OMDBResponse, TVShowDetails};

fn show(seasons: i32) -> TVShowDetails {
    TVShowDetails { number_of_seasons: seasons }
}

fn ratings(imdb: &str) -> OMDBResponse {
    OMDBResponse { imdb_rating: Some(imdb.to_string()), metascore: None, ratings: None }
}

#[test]
fn put_then_get_until_ttl() {
    let mut cache = CacheManager::with_limits(10, 100);
    cache.insert_tv_details(7, show(3), 1000);
    let hit = cache.get_tv_details(7, 1000).expect("fresh entry");
    assert_eq!(hit.data.number_of_seasons, 3);
    assert_eq!(hit.timestamp, 1000);
    assert!(cache.get_tv_details(7, 1099).is_some());
    assert!(cache.get_tv_details(7, 1100).is_none());
    assert_eq!(cache.tv_len(), 0);
}

#[test]
fn missing_key_is_a_miss() {
    let mut cache = CacheManager::new();
    assert!(cache.get_tv_details(1, 0).is_none());
    assert!(cache.get_omdb_rating("Heat_1995", 0).is_none());
}

#[test]
fn repeated_gets_keep_value_and_creation_time() {
    let mut cache = CacheManager::with_limits(10, 100);
    cache.insert_tv_details(1, show(5), 10);
    let first = cache.get_tv_details(1, 20).unwrap();
    let second = cache.get_tv_details(1, 30).unwrap();
    let third = cache.get_tv_details(1, 30).unwrap();
    assert_eq!(first.timestamp, 10);
    assert_eq!(second.timestamp, 10);
    assert_eq!(third.timestamp, 10);
    assert_eq!(third.data.number_of_seasons, 5);
    assert_eq!(cache.tv_len(), 1);
}

#[test]
fn overwrite_restamps_entry() {
    let mut cache = CacheManager::with_limits(10, 100);
    cache.insert_tv_details(1, show(1), 0);
    cache.insert_tv_details(1, show(2), 90);
    let hit = cache.get_tv_details(1, 150).unwrap();
    assert_eq!(hit.data.number_of_seasons, 2);
    assert_eq!(cache.tv_len(), 1);
}

#[test]
fn cleanup_keeps_size_within_capacity() {
    let mut cache = CacheManager::with_limits(4, 1000);
    for i in 0..10u64 {
        cache.insert_tv_details(i as i32, show(i as i32), i);
        assert!(cache.tv_len() <= 4);
    }
}

#[test]
fn eviction_removes_oldest_down_to_three_quarters() {
    let mut cache = CacheManager::with_limits(4, 1000);
    for i in 0..4u64 {
        cache.insert_tv_details(i as i32, show(0), 10 + i);
    }
    assert_eq!(cache.tv_len(), 4);
    cache.insert_tv_details(99, show(9), 20);
    // five entries exceed four: the two oldest go, down to three
    assert_eq!(cache.tv_len(), 3);
    assert!(cache.get_tv_details(0, 20).is_none());
    assert!(cache.get_tv_details(1, 20).is_none());
    assert!(cache.get_tv_details(2, 20).is_some());
    assert!(cache.get_tv_details(3, 20).is_some());
    assert!(cache.get_tv_details(99, 20).is_some());
}

#[test]
fn eviction_never_drops_the_new_entry() {
    let mut cache = CacheManager::with_limits(1, 1000);
    cache.insert_tv_details(1, show(1), 50);
    cache.insert_tv_details(2, show(2), 10);
    assert_eq!(cache.tv_len(), 1);
    assert!(cache.get_tv_details(2, 20).is_some());
}

#[test]
fn ratings_cache_by_title_and_year() {
    let mut cache = CacheManager::with_limits(10, 100);
    let key = rating_key("Heat", "1995");
    assert_eq!(key, "Heat_1995");
    cache.insert_omdb_rating(key, ratings("8.3"), 5);
    let hit = cache.get_omdb_rating("Heat_1995", 6).unwrap();
    assert_eq!(hit.data.imdb_rating.as_deref(), Some("8.3"));
    assert!(cache.get_omdb_rating("Heat_1996", 6).is_none());
    assert!(cache.get_omdb_rating("Heat_1995", 105).is_none());
    assert_eq!(cache.ratings_len(), 0);
}

#[test]
fn ratings_eviction_keeps_capacity() {
    let mut cache = CacheManager::with_limits(8, 1000);
    for i in 0..20u64 {
        cache.insert_omdb_rating(format!("t{}_2000", i), ratings("7"), i);
        assert!(cache.ratings_len() <= 8);
    }
    assert!(cache.get_omdb_rating("t19_2000", 19).is_some());
    assert!(cache.get_omdb_rating("t0_2000", 19).is_none());
}

#[test]
fn snapshot_round_trip_keeps_age() {
    let mut cache = CacheManager::with_limits(10, 100);
    cache.insert_tv_details(1, show(4), 0);
    cache.insert_tv_details(2, show(6), 30);
    cache.insert_omdb_rating(rating_key("Up", "2009"), ratings("8.2"), 40);
    let file = cache.snapshot(60);
    assert_eq!(file.tv_details.len(), 2);
    let mut ages: Vec<(i32, i32, u64)> =
        file.tv_details.iter().map(|(k, v, a)| (*k, v.number_of_seasons, *a)).collect();
    ages.sort();
    assert_eq!(ages, vec![(1, 4, 60), (2, 6, 30)]);
    assert_eq!(file.omdb_ratings.len(), 1);
    assert_eq!(file.omdb_ratings[0].2, 20);

    // a new clock after a restart
    let mut restored = CacheManager::restore_with_limits(file, 10, 100, 500);
    let one = restored.get_tv_details(1, 500).unwrap();
    assert_eq!(one.data.number_of_seasons, 4);
    assert_eq!(one.timestamp, 440);
    assert!(restored.get_tv_details(1, 539).is_some());
    assert!(restored.get_tv_details(1, 540).is_none());
    assert!(restored.get_tv_details(2, 569).is_some());
    assert!(restored.get_tv_details(2, 570).is_none());
    let r = restored.get_omdb_rating("Up_2009", 500).unwrap();
    assert_eq!(r.data.imdb_rating.as_deref(), Some("8.2"));
}

#[test]
fn snapshot_leaves_out_expired_entries() {
    let mut cache = CacheManager::with_limits(10, 100);
    cache.insert_tv_details(1, show(1), 0);
    cache.insert_tv_details(2, show(2), 50);
    let file = cache.snapshot(120);
    assert_eq!(file.tv_details.len(), 1);
    assert_eq!(file.tv_details[0].0, 2);
    assert_eq!(file.tv_details[0].2, 70);
}

#[test]
fn restore_drops_stale_and_too_old_entries() {
    let file = tmdb2seer::CacheFile {
        tv_details: vec![(1, show(1), 100), (2, show(2), 99), (3, show(3), 60), (2, show(7), 10)],
        omdb_ratings: vec![],
    };
    let mut cache = CacheManager::restore_with_limits(file, 10, 100, 200);
    // 100 s old: past the time-to-live
    assert!(cache.get_tv_details(1, 200).is_none());
    // a later duplicate wins
    let two = cache.get_tv_details(2, 200).unwrap();
    assert_eq!(two.data.number_of_seasons, 7);
    assert_eq!(two.timestamp, 190);
    assert_eq!(cache.get_tv_details(3, 200).unwrap().timestamp, 140);
    // older than the clock itself
    let file = tmdb2seer::CacheFile { tv_details: vec![(4, show(4), 90)], omdb_ratings: vec![] };
    let mut cache = CacheManager::restore_with_limits(file, 10, 100, 80);
    assert!(cache.get_tv_details(4, 80).is_none());
}

#[test]
fn default_restore_uses_a_day_of_ttl() {
    let file = tmdb2seer::CacheFile {
        tv_details: vec![(1, show(1), 86399), (2, show(2), 86400)],
        omdb_ratings: vec![],
    };
    let mut cache = CacheManager::restore(file, 100000);
    assert!(cache.get_tv_details(1, 100000).is_some());
    assert!(cache.get_tv_details(2, 100000).is_none());
}

#[test]
fn saves_are_single_flight_and_spaced() {
    let mut cache = CacheManager::with_limits(10, 1000);
    // nothing changed yet
    assert!(cache.begin_save(0).is_none());
    cache.insert_tv_details(1, show(1), 0);
    let file = cache.begin_save(10).expect("first save is due");
    assert_eq!(file.tv_details.len(), 1);
    cache.insert_tv_details(2, show(2), 11);
    // one is under way
    assert!(cache.begin_save(400).is_none());
    cache.finish_save(true);
    // too soon after the last
    assert!(cache.begin_save(309).is_none());
    assert!(cache.begin_save(310).is_some());
    cache.finish_save(false);
    // a failed save leaves the changes unsaved
    assert!(cache.begin_save(610).is_some());
    cache.finish_save(true);
    assert!(cache.begin_save(2000).is_none());
}

#[test]
fn maybe_cleanup_trims_restored_cache() {
    let file = tmdb2seer::CacheFile {
        tv_details: (0..6).map(|i| (i, show(i), 60 - i as u64)).collect(),
        omdb_ratings: vec![],
    };
    let mut cache = CacheManager::restore_with_limits(file, 4, 100, 100);
    assert_eq!(cache.tv_len(), 6);
    cache.maybe_cleanup();
    assert_eq!(cache.tv_len(), 3);
    assert!(cache.get_tv_details(5, 100).is_some());
    assert!(cache.get_tv_details(0, 100).is_none());
}
